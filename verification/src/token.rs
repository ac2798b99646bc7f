//! Tokens and their places in the source text.

use vstd::prelude::*;

verus! {

/// A place in the source text.
#[derive(Debug, Copy, Clone, PartialEq, Eq, Structural)]
pub struct Location {
    /// number of characters before this one
    pub char: u64,
    /// number of newline characters before this one
    pub line: u64,
    /// number of characters since the last newline
    pub column: u64,
}

impl Default for Location {
    fn default() -> (r: Self)
        ensures
            r == Location::start(),
    {
        Location { char: 0, line: 0, column: 0 }
    }
}

impl Location {
    /// The place of the first character.
    pub open spec fn start() -> Location {
        Location { char: 0, line: 0, column: 0 }
    }

    /// The place that follows `self`; `newline` tells whether the character
    /// at `self` ends its line.
    pub open spec fn next(self, newline: bool) -> Location {
        if newline {
            Location { char: (self.char + 1) as u64, line: (self.line + 1) as u64, column: 0 }
        } else {
            Location {
                char: (self.char + 1) as u64,
                line: self.line,
                column: (self.column + 1) as u64,
            }
        }
    }

    /// The place of the character at index `i` of `source`.
    pub open spec fn at(source: Seq<char>, i: int) -> Location
        decreases i,
    {
        if i <= 0 {
            Location::start()
        } else {
            Location::at(source, i - 1).next(source[i - 1] == '\n')
        }
    }

    /// Moves one character on; `newline` tells whether the character left
    /// behind ends its line.
    pub fn advance(&mut self, newline: bool)
        requires
            old(self).char < u64::MAX,
            old(self).line < u64::MAX,
            old(self).column < u64::MAX,
        ensures
            *final(self) == old(self).next(newline),
    {
        self.char += 1;
        self.column += 1;
        if newline {
            self.column = 0;
            self.line += 1;
        }
    }

    /// The place `rhs` characters further on, on the same line.
    pub fn add(self, rhs: u64) -> (r: Location)
        requires
            self.char + rhs <= u64::MAX,
            self.column + rhs <= u64::MAX,
        ensures
            r == (Location {
                char: (self.char + rhs) as u64,
                line: self.line,
                column: (self.column + rhs) as u64,
            }),
    {
        Location { char: self.char + rhs, line: self.line, column: self.column + rhs }
    }

    /// The place `rhs` characters back, on the same line.
    pub fn sub(self, rhs: u64) -> (r: Location)
        requires
            rhs <= self.char,
            rhs <= self.column,
        ensures
            r == (Location {
                char: (self.char - rhs) as u64,
                line: self.line,
                column: (self.column - rhs) as u64,
            }),
    {
        Location { char: self.char - rhs, line: self.line, column: self.column - rhs }
    }

    /// Lines and columns never run ahead of the character count.
    pub proof fn lemma_at_bounded(source: Seq<char>, i: int)
        requires
            0 <= i <= u64::MAX,
        ensures
            Location::at(source, i).char == i,
            Location::at(source, i).line <= i,
            Location::at(source, i).column <= i,
        decreases i,
    {
        if i > 0 {
            Location::lemma_at_bounded(source, i - 1);
        }
    }
}

/// What a token is.
#[derive(Debug, PartialEq)]
pub enum TokenType {
    // Single-character tokens.
    LeftParen,
    RightParen,
    LeftBrace,
    RightBrace,
    Comma,
    Dot,
    Minus,
    Plus,
    Semicolon,
    Slash,
    Star,
    // One or two character tokens.
    Bang,
    BangEqual,
    Equal,
    EqualEqual,
    Greater,
    GreaterEqual,
    Less,
    LessEqual,
    // Literals.
    Identifier(String),
    String(String),
    Integer(i64),
    /// A decimal literal, held as its text: digits around one point.
    Decimal(String),
    // Keywords.
    And,
    Class,
    Else,
    False,
    Fun,
    For,
    If,
    Nil,
    Or,
    Print,
    Return,
    Super,
    This,
    True,
    Var,
    While,
    Eof,
}

/// A token type with its texts as sequences of characters.
pub enum TokenTypeView {
    // Single-character tokens.
    LeftParen,
    RightParen,
    LeftBrace,
    RightBrace,
    Comma,
    Dot,
    Minus,
    Plus,
    Semicolon,
    Slash,
    Star,
    // One or two character tokens.
    Bang,
    BangEqual,
    Equal,
    EqualEqual,
    Greater,
    GreaterEqual,
    Less,
    LessEqual,
    // Literals.
    Identifier(Seq<char>),
    String(Seq<char>),
    Integer(i64),
    /// A decimal literal, held as its text: digits around one point.
    Decimal(Seq<char>),
    // Keywords.
    And,
    Class,
    Else,
    False,
    Fun,
    For,
    If,
    Nil,
    Or,
    Print,
    Return,
    Super,
    This,
    True,
    Var,
    While,
    Eof,
}

impl View for TokenType {
    type V = TokenTypeView;

    open spec fn view(&self) -> TokenTypeView {
        match *self {
            TokenType::LeftParen => TokenTypeView::LeftParen,
            TokenType::RightParen => TokenTypeView::RightParen,
            TokenType::LeftBrace => TokenTypeView::LeftBrace,
            TokenType::RightBrace => TokenTypeView::RightBrace,
            TokenType::Comma => TokenTypeView::Comma,
            TokenType::Dot => TokenTypeView::Dot,
            TokenType::Minus => TokenTypeView::Minus,
            TokenType::Plus => TokenTypeView::Plus,
            TokenType::Semicolon => TokenTypeView::Semicolon,
            TokenType::Slash => TokenTypeView::Slash,
            TokenType::Star => TokenTypeView::Star,
            TokenType::Bang => TokenTypeView::Bang,
            TokenType::BangEqual => TokenTypeView::BangEqual,
            TokenType::Equal => TokenTypeView::Equal,
            TokenType::EqualEqual => TokenTypeView::EqualEqual,
            TokenType::Greater => TokenTypeView::Greater,
            TokenType::GreaterEqual => TokenTypeView::GreaterEqual,
            TokenType::Less => TokenTypeView::Less,
            TokenType::LessEqual => TokenTypeView::LessEqual,
            TokenType::And => TokenTypeView::And,
            TokenType::Class => TokenTypeView::Class,
            TokenType::Else => TokenTypeView::Else,
            TokenType::False => TokenTypeView::False,
            TokenType::Fun => TokenTypeView::Fun,
            TokenType::For => TokenTypeView::For,
            TokenType::If => TokenTypeView::If,
            TokenType::Nil => TokenTypeView::Nil,
            TokenType::Or => TokenTypeView::Or,
            TokenType::Print => TokenTypeView::Print,
            TokenType::Return => TokenTypeView::Return,
            TokenType::Super => TokenTypeView::Super,
            TokenType::This => TokenTypeView::This,
            TokenType::True => TokenTypeView::True,
            TokenType::Var => TokenTypeView::Var,
            TokenType::While => TokenTypeView::While,
            TokenType::Eof => TokenTypeView::Eof,
            TokenType::Identifier(s) => TokenTypeView::Identifier(s@),
            TokenType::String(s) => TokenTypeView::String(s@),
            TokenType::Integer(i) => TokenTypeView::Integer(i),
            TokenType::Decimal(s) => TokenTypeView::Decimal(s@),
        }
    }
}

impl Clone for TokenType {
    fn clone(&self) -> (r: Self)
        ensures
            r == *self,
    {
        match self {
            TokenType::LeftParen => TokenType::LeftParen,
            TokenType::RightParen => TokenType::RightParen,
            TokenType::LeftBrace => TokenType::LeftBrace,
            TokenType::RightBrace => TokenType::RightBrace,
            TokenType::Comma => TokenType::Comma,
            TokenType::Dot => TokenType::Dot,
            TokenType::Minus => TokenType::Minus,
            TokenType::Plus => TokenType::Plus,
            TokenType::Semicolon => TokenType::Semicolon,
            TokenType::Slash => TokenType::Slash,
            TokenType::Star => TokenType::Star,
            TokenType::Bang => TokenType::Bang,
            TokenType::BangEqual => TokenType::BangEqual,
            TokenType::Equal => TokenType::Equal,
            TokenType::EqualEqual => TokenType::EqualEqual,
            TokenType::Greater => TokenType::Greater,
            TokenType::GreaterEqual => TokenType::GreaterEqual,
            TokenType::Less => TokenType::Less,
            TokenType::LessEqual => TokenType::LessEqual,
            TokenType::And => TokenType::And,
            TokenType::Class => TokenType::Class,
            TokenType::Else => TokenType::Else,
            TokenType::False => TokenType::False,
            TokenType::Fun => TokenType::Fun,
            TokenType::For => TokenType::For,
            TokenType::If => TokenType::If,
            TokenType::Nil => TokenType::Nil,
            TokenType::Or => TokenType::Or,
            TokenType::Print => TokenType::Print,
            TokenType::Return => TokenType::Return,
            TokenType::Super => TokenType::Super,
            TokenType::This => TokenType::This,
            TokenType::True => TokenType::True,
            TokenType::Var => TokenType::Var,
            TokenType::While => TokenType::While,
            TokenType::Eof => TokenType::Eof,
            TokenType::Identifier(s) => TokenType::Identifier(s.clone()),
            TokenType::String(s) => TokenType::String(s.clone()),
            TokenType::Integer(i) => TokenType::Integer(*i),
            TokenType::Decimal(s) => TokenType::Decimal(s.clone()),
        }
    }
}

impl TokenType {
    /// Returns `true` if the token type is [`RightBrace`].
    ///
    /// [`RightBrace`]: TokenType::RightBrace
    #[must_use]
    pub fn is_right_brace(&self) -> (b: bool)
        ensures
            b == (self@ is RightBrace),
    {
        matches!(self, Self::RightBrace)
    }

    /// Returns `true` if the token type is [`Identifier`].
    ///
    /// [`Identifier`]: TokenType::Identifier
    #[must_use]
    pub fn is_identifier(&self) -> (b: bool)
        ensures
            b == (self@ is Identifier),
    {
        matches!(self, Self::Identifier(..))
    }

    /// The name, if the token type is an identifier.
    pub fn as_identifier(&self) -> (r: Option<&String>)
        ensures
            match r {
                Some(name) => *self == TokenType::Identifier(*name),
                None => !(self@ is Identifier),
            },
    {
        if let Self::Identifier(v) = self {
            Some(v)
        } else {
            None
        }
    }

    /// The name, if the token type is an identifier; else the token type
    /// itself.
    pub fn try_into_identifier(self) -> (r: Result<String, Self>)
        ensures
            match r {
                Ok(name) => self == TokenType::Identifier(name),
                Err(other) => other == self && !(self@ is Identifier),
            },
    {
        if let Self::Identifier(v) = self {
            Ok(v)
        } else {
            Err(self)
        }
    }

    /// Whether `self` and `other` are the same token type with the same text
    /// or number.
    pub fn same(&self, other: &TokenType) -> (b: bool)
        ensures
            b == (self@ == other@),
    {
        match (self, other) {
            (TokenType::Identifier(a), TokenType::Identifier(b)) => *a == *b,
            (TokenType::String(a), TokenType::String(b)) => *a == *b,
            (TokenType::Integer(a), TokenType::Integer(b)) => *a == *b,
            (TokenType::Decimal(a), TokenType::Decimal(b)) => *a == *b,
            (TokenType::LeftParen, TokenType::LeftParen) => true,
            (TokenType::RightParen, TokenType::RightParen) => true,
            (TokenType::LeftBrace, TokenType::LeftBrace) => true,
            (TokenType::RightBrace, TokenType::RightBrace) => true,
            (TokenType::Comma, TokenType::Comma) => true,
            (TokenType::Dot, TokenType::Dot) => true,
            (TokenType::Minus, TokenType::Minus) => true,
            (TokenType::Plus, TokenType::Plus) => true,
            (TokenType::Semicolon, TokenType::Semicolon) => true,
            (TokenType::Slash, TokenType::Slash) => true,
            (TokenType::Star, TokenType::Star) => true,
            (TokenType::Bang, TokenType::Bang) => true,
            (TokenType::BangEqual, TokenType::BangEqual) => true,
            (TokenType::Equal, TokenType::Equal) => true,
            (TokenType::EqualEqual, TokenType::EqualEqual) => true,
            (TokenType::Greater, TokenType::Greater) => true,
            (TokenType::GreaterEqual, TokenType::GreaterEqual) => true,
            (TokenType::Less, TokenType::Less) => true,
            (TokenType::LessEqual, TokenType::LessEqual) => true,
            (TokenType::And, TokenType::And) => true,
            (TokenType::Class, TokenType::Class) => true,
            (TokenType::Else, TokenType::Else) => true,
            (TokenType::False, TokenType::False) => true,
            (TokenType::Fun, TokenType::Fun) => true,
            (TokenType::For, TokenType::For) => true,
            (TokenType::If, TokenType::If) => true,
            (TokenType::Nil, TokenType::Nil) => true,
            (TokenType::Or, TokenType::Or) => true,
            (TokenType::Print, TokenType::Print) => true,
            (TokenType::Return, TokenType::Return) => true,
            (TokenType::Super, TokenType::Super) => true,
            (TokenType::This, TokenType::This) => true,
            (TokenType::True, TokenType::True) => true,
            (TokenType::Var, TokenType::Var) => true,
            (TokenType::While, TokenType::While) => true,
            (TokenType::Eof, TokenType::Eof) => true,
            _ => false,
        }
    }
}

/// A classified piece of the source text, with its place.
#[derive(Debug, PartialEq)]
pub struct Token {
    pub token_type: TokenType,
    pub location_start: Location,
    pub location_end: Location,
    pub lexeme: String,
}

/// A token with its texts as sequences of characters.
pub struct TokenView {
    pub token_type: TokenTypeView,
    pub location_start: Location,
    pub location_end: Location,
    pub lexeme: Seq<char>,
}

impl View for Token {
    type V = TokenView;

    open spec fn view(&self) -> TokenView {
        TokenView {
            token_type: self.token_type@,
            location_start: self.location_start,
            location_end: self.location_end,
            lexeme: self.lexeme@,
        }
    }
}

impl Clone for Token {
    fn clone(&self) -> (r: Self)
        ensures
            r == *self,
    {
        Token {
            token_type: self.token_type.clone(),
            location_start: self.location_start,
            location_end: self.location_end,
            lexeme: self.lexeme.clone(),
        }
    }
}

} // verus!
