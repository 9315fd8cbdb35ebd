//! The tokens a template is written with.

use vstd::prelude::*;

verus! {

/// The delimiter of a group of tokens.
#[derive(Clone, Copy, Debug, PartialEq, Eq, Structural)]
pub enum Delimiter {
    /// `( ... )`
    Paren,
    /// `{ ... }`
    Brace,
    /// `[ ... ]`
    Bracket,
}

/// What a literal token denotes.
#[derive(Debug)]
pub enum LitValue {
    /// A string literal, with its escapes resolved.
    Str(String),
    /// A character literal.
    Char(char),
    /// A byte literal.
    Byte(u8),
    /// An integer literal whose value fits in `u128`.
    Int(u128),
    /// A floating-point literal, as its decimal digits without suffix.
    Float(String),
    /// Any other literal (byte strings, C strings, out-of-range integers).
    Other,
}

/// One token of the source text.
///
/// Groups are flattened: a group is an `Open` token, its contents and the
/// matching `Close` token.
#[derive(Debug)]
pub enum Token {
    /// An identifier or keyword.
    Ident(String),
    /// A punctuation character; the flag tells whether it is joined to the
    /// punctuation character that follows it (as in `::`).
    Punct(char, bool),
    /// A literal, with its spelling in the source and its value.
    Literal(String, LitValue),
    /// The start of a group.
    Open(Delimiter),
    /// The end of a group.
    Close(Delimiter),
}

/// A half-open range `[start, end)` of token positions.
#[derive(Clone, Copy, Debug, PartialEq, Eq, Structural)]
pub struct Span {
    pub start: usize,
    pub end: usize,
}

pub open spec fn is_punct(t: Token, c: char) -> bool {
    t matches Token::Punct(p, _) && p == c
}

pub open spec fn is_ident(t: Token) -> bool {
    t is Ident
}

/// Tells whether `t` is the punctuation character `c`.
pub fn punct_is(t: &Token, c: char) -> (r: bool)
    ensures
        r == is_punct(*t, c),
{
    match t {
        Token::Punct(p, _) => *p == c,
        _ => false,
    }
}

} // verus!
