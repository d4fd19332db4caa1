use vstd::prelude::*;

verus! {

/// A lexical token of Kingcobra source code.
#[derive(Debug, PartialEq, Clone)]
pub enum Token {
    // keywords
    Let,
    Fn,
    When,
    Otherwise,
    Loop,
    Return,
    Done,
    While,
    Import,
    Class,
    New,
    // identifiers and data
    Ident(String),
    Int(i64),
    String(String),
    True,
    False,
    // operators
    Assign,
    Plus,
    Minus,
    Asterisk,
    Slash,
    Eq,
    NotEq,
    Lt,
    Gt,
    // punctuation
    Colon,
    Comma,
    Dot,
    LParen,
    RParen,
    LBracket,
    RBracket,
    LBrace,
    RBrace,
    // special
    Illegal,
    Eof,
}

/// The mathematical value of a token: strings are taken by their characters.
pub enum SToken {
    Let,
    Fn,
    When,
    Otherwise,
    Loop,
    Return,
    Done,
    While,
    Import,
    Class,
    New,
    Ident(Seq<char>),
    Int(i64),
    Str(Seq<char>),
    True,
    False,
    Assign,
    Plus,
    Minus,
    Asterisk,
    Slash,
    Eq,
    NotEq,
    Lt,
    Gt,
    Colon,
    Comma,
    Dot,
    LParen,
    RParen,
    LBracket,
    RBracket,
    LBrace,
    RBrace,
    Illegal,
    Eof,
}

impl View for Token {
    type V = SToken;

    open spec fn view(&self) -> SToken {
        match self {
            Token::Let => SToken::Let,
            Token::Fn => SToken::Fn,
            Token::When => SToken::When,
            Token::Otherwise => SToken::Otherwise,
            Token::Loop => SToken::Loop,
            Token::Return => SToken::Return,
            Token::Done => SToken::Done,
            Token::While => SToken::While,
            Token::Import => SToken::Import,
            Token::Class => SToken::Class,
            Token::New => SToken::New,
            Token::Ident(s) => SToken::Ident(s@),
            Token::Int(i) => SToken::Int(*i),
            Token::String(s) => SToken::Str(s@),
            Token::True => SToken::True,
            Token::False => SToken::False,
            Token::Assign => SToken::Assign,
            Token::Plus => SToken::Plus,
            Token::Minus => SToken::Minus,
            Token::Asterisk => SToken::Asterisk,
            Token::Slash => SToken::Slash,
            Token::Eq => SToken::Eq,
            Token::NotEq => SToken::NotEq,
            Token::Lt => SToken::Lt,
            Token::Gt => SToken::Gt,
            Token::Colon => SToken::Colon,
            Token::Comma => SToken::Comma,
            Token::Dot => SToken::Dot,
            Token::LParen => SToken::LParen,
            Token::RParen => SToken::RParen,
            Token::LBracket => SToken::LBracket,
            Token::RBracket => SToken::RBracket,
            Token::LBrace => SToken::LBrace,
            Token::RBrace => SToken::RBrace,
            Token::Illegal => SToken::Illegal,
            Token::Eof => SToken::Eof,
        }
    }
}

impl Token {
    /// A copy of the token with the same value.
    pub fn copy(&self) -> (res: Token)
        ensures
            res@ == self@,
    {
        match self {
            Token::Let => Token::Let,
            Token::Fn => Token::Fn,
            Token::When => Token::When,
            Token::Otherwise => Token::Otherwise,
            Token::Loop => Token::Loop,
            Token::Return => Token::Return,
            Token::Done => Token::Done,
            Token::While => Token::While,
            Token::Import => Token::Import,
            Token::Class => Token::Class,
            Token::New => Token::New,
            Token::Ident(s) => Token::Ident(s.clone()),
            Token::Int(i) => Token::Int(*i),
            Token::String(s) => Token::String(s.clone()),
            Token::True => Token::True,
            Token::False => Token::False,
            Token::Assign => Token::Assign,
            Token::Plus => Token::Plus,
            Token::Minus => Token::Minus,
            Token::Asterisk => Token::Asterisk,
            Token::Slash => Token::Slash,
            Token::Eq => Token::Eq,
            Token::NotEq => Token::NotEq,
            Token::Lt => Token::Lt,
            Token::Gt => Token::Gt,
            Token::Colon => Token::Colon,
            Token::Comma => Token::Comma,
            Token::Dot => Token::Dot,
            Token::LParen => Token::LParen,
            Token::RParen => Token::RParen,
            Token::LBracket => Token::LBracket,
            Token::RBracket => Token::RBracket,
            Token::LBrace => Token::LBrace,
            Token::RBrace => Token::RBrace,
            Token::Illegal => Token::Illegal,
            Token::Eof => Token::Eof,
        }
    }

    /// Whether two tokens have the same value.
    pub fn same(&self, other: &Token) -> (res: bool)
        ensures
            res == (self@ == other@),
    {
        match (self, other) {
            (Token::Ident(a), Token::Ident(b)) => a.eq(b),
            (Token::String(a), Token::String(b)) => a.eq(b),
            (Token::Int(a), Token::Int(b)) => *a == *b,
            _ => self.tag() == other.tag(),
        }
    }

    /// Which of the variants the token is, by number.
    pub fn tag(&self) -> (res: u8)
        ensures
            res == spec_tag(self@),
    {
        match self {
            Token::Let => 0,
            Token::Fn => 1,
            Token::When => 2,
            Token::Otherwise => 3,
            Token::Loop => 4,
            Token::Return => 5,
            Token::Done => 6,
            Token::While => 7,
            Token::Import => 8,
            Token::Class => 9,
            Token::New => 10,
            Token::Ident(_) => 11,
            Token::Int(_) => 12,
            Token::String(_) => 13,
            Token::True => 14,
            Token::False => 15,
            Token::Assign => 16,
            Token::Plus => 17,
            Token::Minus => 18,
            Token::Asterisk => 19,
            Token::Slash => 20,
            Token::Eq => 21,
            Token::NotEq => 22,
            Token::Lt => 23,
            Token::Gt => 24,
            Token::Colon => 25,
            Token::Comma => 26,
            Token::Dot => 27,
            Token::LParen => 28,
            Token::RParen => 29,
            Token::LBracket => 30,
            Token::RBracket => 31,
            Token::LBrace => 32,
            Token::RBrace => 33,
            Token::Illegal => 34,
            Token::Eof => 35,
        }
    }
}

/// The variant number of a token value.
pub open spec fn spec_tag(t: SToken) -> u8 {
    match t {
        SToken::Let => 0,
        SToken::Fn => 1,
        SToken::When => 2,
        SToken::Otherwise => 3,
        SToken::Loop => 4,
        SToken::Return => 5,
        SToken::Done => 6,
        SToken::While => 7,
        SToken::Import => 8,
        SToken::Class => 9,
        SToken::New => 10,
        SToken::Ident(_) => 11,
        SToken::Int(_) => 12,
        SToken::Str(_) => 13,
        SToken::True => 14,
        SToken::False => 15,
        SToken::Assign => 16,
        SToken::Plus => 17,
        SToken::Minus => 18,
        SToken::Asterisk => 19,
        SToken::Slash => 20,
        SToken::Eq => 21,
        SToken::NotEq => 22,
        SToken::Lt => 23,
        SToken::Gt => 24,
        SToken::Colon => 25,
        SToken::Comma => 26,
        SToken::Dot => 27,
        SToken::LParen => 28,
        SToken::RParen => 29,
        SToken::LBracket => 30,
        SToken::RBracket => 31,
        SToken::LBrace => 32,
        SToken::RBrace => 33,
        SToken::Illegal => 34,
        SToken::Eof => 35,
    }
}

} // verus!
