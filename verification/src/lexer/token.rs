//! Tokens produced by the lexer.

use crate::span::Span;
use vstd::prelude::*;

verus! {

/// A token: its kind, the byte range it was read from, and the bytes
/// themselves.
#[derive(Debug)]
pub struct Token {
    pub kind: TokenKind,
    pub span: Span,
    pub symbol: Vec<u8>,
}

/// The mathematical model of a token: the same kind and span, with the
/// bytes as a sequence.
pub struct TokenV {
    pub kind: TokenKind,
    pub span: Span,
    pub sym: Seq<u8>,
}

impl View for Token {
    type V = TokenV;

    open spec fn view(&self) -> TokenV {
        TokenV { kind: self.kind, span: self.span, sym: self.symbol@ }
    }
}

/// The kinds of token the lexer recognises.
#[derive(Clone, Copy, Debug, PartialEq, Eq, Structural)]
pub enum TokenKind {
    // Keywords
    True,
    False,
    If,
    Else,
    Zero,
    Succ,
    Pred,
    IsZero,
    // Other identifiers
    Ident,
    Number,
    // Punctuation
    OpenParen,
    CloseParen,
    OpenBrace,
    CloseBrace,
    Plus,
    Minus,
    Star,
    Slash,
    Comma,
    Dot,
    Semi,
    Colon,
    Not,
    Gt,
    Lt,
    Eq,
    Pipe,
    // End of input
    Eof,
}

} // verus!
