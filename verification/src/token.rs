use vstd::prelude::*;

verus! {

/// Lexical categories of the C-like source language: literal kinds,
/// keywords, operators, punctuation, and the end-of-input marker.
///
/// `Num` carries the value of a decimal integer literal; `Float` carries
/// the raw text of a decimal literal that contains a dot, which this
/// backend recognises but does not compile; `Id` carries an identifier's
/// spelling; `Str` and `CharLiteral` carry string and character literals
/// with their escape sequences already resolved.
#[derive(Debug, Clone, PartialEq, Eq)]
pub enum TokenKind {
    // Literals
    Num(i64),
    Id(String),
    // Keywords
    If,
    Else,
    While,
    Return,
    Int,
    Char,
    Sizeof,
    Enum,
    Float(String),
    // Operators and punctuation
    Assign,
    Add,
    Sub,
    Mul,
    Div,
    Mod,
    Eq,
    Ne,
    Lt,
    Gt,
    Le,
    Ge,
    And,
    Or,
    Xor,
    Not,
    Inc,
    Dec,
    Cond,
    Lor,
    Lan,
    Shl,
    Shr,
    // Delimiters
    LParen,
    RParen,
    LBrace,
    RBrace,
    LBracket,
    RBracket,
    Semicolon,
    Comma,
    Colon,
    // Special
    Str(String),
    CharLiteral(char),
    Eof,
}

/// One token together with the source line it started on.
#[derive(Debug, Clone)]
pub struct Token {
    pub kind: TokenKind,
    pub line: usize,
}

/// A token kind at the specification level: the same vocabulary with
/// each text payload abstracted to its character sequence.  The
/// lexer's contracts state the token they produce in this form.
pub enum TokenView {
    Num(i64),
    Id(Seq<char>),
    If,
    Else,
    While,
    Return,
    Int,
    Char,
    Sizeof,
    Enum,
    Float(Seq<char>),
    Assign,
    Add,
    Sub,
    Mul,
    Div,
    Mod,
    Eq,
    Ne,
    Lt,
    Gt,
    Le,
    Ge,
    And,
    Or,
    Xor,
    Not,
    Inc,
    Dec,
    Cond,
    Lor,
    Lan,
    Shl,
    Shr,
    LParen,
    RParen,
    LBrace,
    RBrace,
    LBracket,
    RBracket,
    Semicolon,
    Comma,
    Colon,
    Str(Seq<char>),
    CharLiteral(char),
    Eof,
}

/// The specification-level view of a token kind.
pub open spec fn token_view(k: TokenKind) -> TokenView {
    match k {
        TokenKind::Num(n) => TokenView::Num(n),
        TokenKind::Id(s) => TokenView::Id(s@),
        TokenKind::If => TokenView::If,
        TokenKind::Else => TokenView::Else,
        TokenKind::While => TokenView::While,
        TokenKind::Return => TokenView::Return,
        TokenKind::Int => TokenView::Int,
        TokenKind::Char => TokenView::Char,
        TokenKind::Sizeof => TokenView::Sizeof,
        TokenKind::Enum => TokenView::Enum,
        TokenKind::Float(s) => TokenView::Float(s@),
        TokenKind::Assign => TokenView::Assign,
        TokenKind::Add => TokenView::Add,
        TokenKind::Sub => TokenView::Sub,
        TokenKind::Mul => TokenView::Mul,
        TokenKind::Div => TokenView::Div,
        TokenKind::Mod => TokenView::Mod,
        TokenKind::Eq => TokenView::Eq,
        TokenKind::Ne => TokenView::Ne,
        TokenKind::Lt => TokenView::Lt,
        TokenKind::Gt => TokenView::Gt,
        TokenKind::Le => TokenView::Le,
        TokenKind::Ge => TokenView::Ge,
        TokenKind::And => TokenView::And,
        TokenKind::Or => TokenView::Or,
        TokenKind::Xor => TokenView::Xor,
        TokenKind::Not => TokenView::Not,
        TokenKind::Inc => TokenView::Inc,
        TokenKind::Dec => TokenView::Dec,
        TokenKind::Cond => TokenView::Cond,
        TokenKind::Lor => TokenView::Lor,
        TokenKind::Lan => TokenView::Lan,
        TokenKind::Shl => TokenView::Shl,
        TokenKind::Shr => TokenView::Shr,
        TokenKind::LParen => TokenView::LParen,
        TokenKind::RParen => TokenView::RParen,
        TokenKind::LBrace => TokenView::LBrace,
        TokenKind::RBrace => TokenView::RBrace,
        TokenKind::LBracket => TokenView::LBracket,
        TokenKind::RBracket => TokenView::RBracket,
        TokenKind::Semicolon => TokenView::Semicolon,
        TokenKind::Comma => TokenView::Comma,
        TokenKind::Colon => TokenView::Colon,
        TokenKind::Str(s) => TokenView::Str(s@),
        TokenKind::CharLiteral(c) => TokenView::CharLiteral(c),
        TokenKind::Eof => TokenView::Eof,
    }
}

} // verus!
