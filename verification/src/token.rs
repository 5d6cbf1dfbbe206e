//! The token model: lexical categories, source positions, and positioned
//! tokens, together with their ghost counterparts used in specifications.

use vstd::prelude::*;

verus! {

/// A line/column pair, 1-indexed; the column resets to 1 on each newline.
#[derive(Copy, Clone, Debug, PartialEq, Eq, Structural)]
pub struct Position {
    pub line: usize,
    pub column: usize,
}

impl Position {
    pub fn new(line: usize, column: usize) -> (p: Position)
        ensures
            p.line == line,
            p.column == column,
    {
        Position { line, column }
    }

    /// Move to the start of the next line.
    pub fn advance_line(&mut self)
        requires
            old(self).line < usize::MAX,
        ensures
            final(self).line == old(self).line + 1,
            final(self).column == 1,
    {
        self.line = self.line + 1;
        self.column = 1;
    }

    /// Move one column to the right on the same line.
    pub fn advance_column(&mut self)
        requires
            old(self).column < usize::MAX,
        ensures
            final(self).line == old(self).line,
            final(self).column == old(self).column + 1,
    {
        self.column = self.column + 1;
    }
}

impl Default for Position {
    /// The position of the first character of a source text.
    fn default() -> (p: Self)
        ensures
            p.line == 1,
            p.column == 1,
    {
        Position { line: 1, column: 1 }
    }
}

/// One lexical category. Literal-carrying categories hold their payload;
/// a number literal holds the bit pattern of its 64-bit binary
/// floating-point value.
#[derive(Debug, Clone, PartialEq)]
pub enum Token {
    // Single-character tokens
    LeftParen,
    RightParen,
    LeftBrace,
    RightBrace,
    Comma,
    Dot,
    Minus,
    Plus,
    Semicolon,
    Slash,
    Star,
    // One or two character tokens
    Bang,
    BangEqual,
    Equal,
    EqualEqual,
    Greater,
    GreaterEqual,
    Less,
    LessEqual,
    // Literals
    Identifier(String),
    String(String),
    Number(u64),
    Bool(bool),
    Nil,
    // Keywords
    And,
    Class,
    Else,
    Fun,
    For,
    If,
    Or,
    Print,
    Return,
    Super,
    This,
    Var,
    While,
}

/// The mathematical shape of a [`Token`]: identical variants, with string
/// payloads abstracted to character sequences.
pub enum TokenV {
    LeftParen,
    RightParen,
    LeftBrace,
    RightBrace,
    Comma,
    Dot,
    Minus,
    Plus,
    Semicolon,
    Slash,
    Star,
    Bang,
    BangEqual,
    Equal,
    EqualEqual,
    Greater,
    GreaterEqual,
    Less,
    LessEqual,
    Identifier(Seq<char>),
    String(Seq<char>),
    Number(u64),
    Bool(bool),
    Nil,
    And,
    Class,
    Else,
    Fun,
    For,
    If,
    Or,
    Print,
    Return,
    Super,
    This,
    Var,
    While,
}

/// The ghost counterpart of a token: payload strings are read as their
/// character sequences.
pub open spec fn token_view(t: Token) -> TokenV {
    match t {
        Token::LeftParen => TokenV::LeftParen,
        Token::RightParen => TokenV::RightParen,
        Token::LeftBrace => TokenV::LeftBrace,
        Token::RightBrace => TokenV::RightBrace,
        Token::Comma => TokenV::Comma,
        Token::Dot => TokenV::Dot,
        Token::Minus => TokenV::Minus,
        Token::Plus => TokenV::Plus,
        Token::Semicolon => TokenV::Semicolon,
        Token::Slash => TokenV::Slash,
        Token::Star => TokenV::Star,
        Token::Bang => TokenV::Bang,
        Token::BangEqual => TokenV::BangEqual,
        Token::Equal => TokenV::Equal,
        Token::EqualEqual => TokenV::EqualEqual,
        Token::Greater => TokenV::Greater,
        Token::GreaterEqual => TokenV::GreaterEqual,
        Token::Less => TokenV::Less,
        Token::LessEqual => TokenV::LessEqual,
        Token::Identifier(s) => TokenV::Identifier(s@),
        Token::String(s) => TokenV::String(s@),
        Token::Number(bits) => TokenV::Number(bits),
        Token::Bool(b) => TokenV::Bool(b),
        Token::Nil => TokenV::Nil,
        Token::And => TokenV::And,
        Token::Class => TokenV::Class,
        Token::Else => TokenV::Else,
        Token::Fun => TokenV::Fun,
        Token::For => TokenV::For,
        Token::If => TokenV::If,
        Token::Or => TokenV::Or,
        Token::Print => TokenV::Print,
        Token::Return => TokenV::Return,
        Token::Super => TokenV::Super,
        Token::This => TokenV::This,
        Token::Var => TokenV::Var,
        Token::While => TokenV::While,
    }
}

/// The ghost counterpart of a whole token sequence.
pub open spec fn tokens_view(ts: Seq<Token>) -> Seq<TokenV> {
    ts.map(|i: int, t: Token| token_view(t))
}

/// Whether a token is one of the literal-carrying categories.
pub open spec fn spec_is_literal(t: TokenV) -> bool {
    t matches TokenV::Nil || t matches TokenV::Bool(_) || t matches TokenV::Identifier(_)
        || t matches TokenV::Number(_) || t matches TokenV::String(_)
}

/// Whether a token begins a new declaration or statement, for panic-mode
/// synchronization after a parse error.
pub open spec fn spec_is_start_of_statement(t: TokenV) -> bool {
    t matches TokenV::Class || t matches TokenV::Fun || t matches TokenV::Var
        || t matches TokenV::For || t matches TokenV::If || t matches TokenV::While
        || t matches TokenV::Print || t matches TokenV::Return
}

impl Token {
    pub fn is_literal(&self) -> (r: bool)
        ensures
            r == spec_is_literal(token_view(*self)),
    {
        matches!(
            self,
            Token::Nil | Token::Bool(_) | Token::Identifier(_) | Token::Number(_)
                | Token::String(_)
        )
    }

    pub fn is_start_of_statement(&self) -> (r: bool)
        ensures
            r == spec_is_start_of_statement(token_view(*self)),
    {
        matches!(
            self,
            Token::Class | Token::Fun | Token::Var | Token::For | Token::If | Token::While
                | Token::Print | Token::Return
        )
    }

    /// An equal token, as a fresh value.
    pub fn duplicate(&self) -> (r: Token)
        ensures
            r == *self,
    {
        match self {
            Token::LeftParen => Token::LeftParen,
            Token::RightParen => Token::RightParen,
            Token::LeftBrace => Token::LeftBrace,
            Token::RightBrace => Token::RightBrace,
            Token::Comma => Token::Comma,
            Token::Dot => Token::Dot,
            Token::Minus => Token::Minus,
            Token::Plus => Token::Plus,
            Token::Semicolon => Token::Semicolon,
            Token::Slash => Token::Slash,
            Token::Star => Token::Star,
            Token::Bang => Token::Bang,
            Token::BangEqual => Token::BangEqual,
            Token::Equal => Token::Equal,
            Token::EqualEqual => Token::EqualEqual,
            Token::Greater => Token::Greater,
            Token::GreaterEqual => Token::GreaterEqual,
            Token::Less => Token::Less,
            Token::LessEqual => Token::LessEqual,
            Token::Identifier(s) => Token::Identifier(s.clone()),
            Token::String(s) => Token::String(s.clone()),
            Token::Number(bits) => Token::Number(*bits),
            Token::Bool(b) => Token::Bool(*b),
            Token::Nil => Token::Nil,
            Token::And => Token::And,
            Token::Class => Token::Class,
            Token::Else => Token::Else,
            Token::Fun => Token::Fun,
            Token::For => Token::For,
            Token::If => Token::If,
            Token::Or => Token::Or,
            Token::Print => Token::Print,
            Token::Return => Token::Return,
            Token::Super => Token::Super,
            Token::This => Token::This,
            Token::Var => Token::Var,
            Token::While => Token::While,
        }
    }
}

/// A token together with the position of the first character of its lexeme.
#[derive(Clone, Debug, PartialEq)]
pub struct TokenWithPosition {
    pub token_type: Token,
    pub position: Position,
}

impl TokenWithPosition {
    pub fn new(token_type: Token, position: Position) -> (r: Self)
        ensures
            r.token_type == token_type,
            r.position == position,
    {
        Self { token_type, position }
    }
}

} // verus!
