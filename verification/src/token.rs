use vstd::prelude::*;

use crate::source_file::Location;

verus! {

/// The kind of a token handed over by the lexer.  Payloads (an identifier's
/// name, a literal's value) are carried beside the kind in `Token`, so that
/// kinds compare as plain tags.
#[derive(Clone, Copy, PartialEq, Eq, Structural, Debug)]
pub enum TokenKind {
    LBrace,
    RBrace,
    LParen,
    RParen,
    Semicolon,
    Colon,
    Compound,
    Eq,
    ValOf,
    ResultIs,
    Return,
    If,
    Unless,
    While,
    Until,
    For,
    To,
    By,
    Do,
    Else,
    SwitchOn,
    Into,
    Case,
    Default,
    EndCase,
    Ident,
    IntLit,
    CharLit,
    True,
    False,
    Eof,
}

/// One token of the source: a kind, the span it covers, and (for identifiers
/// and literals) its payload.  The stream the parser walks ends with a single
/// `Eof` token.
#[derive(Clone, Debug)]
pub struct Token {
    pub kind: TokenKind,
    pub loc: Location,
    pub name: String,
    pub int_val: u64,
    pub char_val: char,
}

impl Token {
    /// A token without a payload.
    pub fn new(kind: TokenKind, loc: Location) -> (r: Token)
        ensures
            r.kind == kind,
            r.loc == loc,
            r.name@ == Seq::<char>::empty(),
            r.int_val == 0,
            r.char_val == ' ',
    {
        Token { kind, loc, name: String::new(), int_val: 0, char_val: ' ' }
    }

    /// An identifier token.
    pub fn ident(name: String, loc: Location) -> (r: Token)
        ensures
            r.kind == TokenKind::Ident,
            r.loc == loc,
            r.name == name,
            r.int_val == 0,
            r.char_val == ' ',
    {
        Token { kind: TokenKind::Ident, loc, name, int_val: 0, char_val: ' ' }
    }

    /// An integer literal token.
    pub fn int_lit(value: u64, loc: Location) -> (r: Token)
        ensures
            r.kind == TokenKind::IntLit,
            r.loc == loc,
            r.name@ == Seq::<char>::empty(),
            r.int_val == value,
            r.char_val == ' ',
    {
        Token { kind: TokenKind::IntLit, loc, name: String::new(), int_val: value, char_val: ' ' }
    }

    /// A character literal token.
    pub fn char_lit(value: char, loc: Location) -> (r: Token)
        ensures
            r.kind == TokenKind::CharLit,
            r.loc == loc,
            r.name@ == Seq::<char>::empty(),
            r.int_val == 0,
            r.char_val == value,
    {
        Token { kind: TokenKind::CharLit, loc, name: String::new(), int_val: 0, char_val: value }
    }
}

} // verus!
