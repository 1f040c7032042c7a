//! The lexer: source bytes in, tokens out.
//!
//! Keywords are told apart from other identifiers by matching their
//! bytes directly — a dispatch over literal text, with no table.  A byte
//! that starts no token is reported as an `UnknownCharacter` error value
//! rather than ending the process.

pub mod token;

use crate::err::{ErrorKind, LangError};
use crate::span::Span;
use crate::util::slice_bytes;
pub use token::{Token, TokenKind, TokenV};
use vstd::prelude::*;

verus! {

/// Whether `b` is ASCII whitespace: space, tab, newline, form feed or
/// carriage return.
pub open spec fn is_ws_sp(b: u8) -> bool {
    b == 32 || b == 9 || b == 10 || b == 12 || b == 13
}

/// Whether `b` is an ASCII letter.
pub open spec fn is_alpha_sp(b: u8) -> bool {
    (65 <= b && b <= 90) || (97 <= b && b <= 122)
}

/// Whether `b` may continue an identifier: a letter, a digit or `_`.
pub open spec fn is_ident_byte_sp(b: u8) -> bool {
    is_alpha_sp(b) || (48 <= b && b <= 57) || b == 95
}

/// The position and line after skipping whitespace from `i`, counting
/// newlines into the line number.
pub open spec fn skip_trivia(src: Seq<u8>, i: int, line: int) -> (int, int)
    decreases src.len() - i,
{
    if 0 <= i < src.len() {
        if src[i] == 10 {
            skip_trivia(src, i + 1, line + 1)
        } else if is_ws_sp(src[i]) {
            skip_trivia(src, i + 1, line)
        } else {
            (i, line)
        }
    } else {
        (i, line)
    }
}

/// The end of the identifier run starting at `i`.
pub open spec fn ident_end(src: Seq<u8>, i: int) -> int
    decreases src.len() - i,
{
    if 0 <= i < src.len() && is_ident_byte_sp(src[i]) {
        ident_end(src, i + 1)
    } else {
        i
    }
}

/// The bytes of the keyword `true`.
pub open spec fn kw_true() -> Seq<u8> {
    seq!['t' as u8, 'r' as u8, 'u' as u8, 'e' as u8]
}

/// The bytes of the keyword `false`.
pub open spec fn kw_false() -> Seq<u8> {
    seq!['f' as u8, 'a' as u8, 'l' as u8, 's' as u8, 'e' as u8]
}

/// The bytes of the keyword `if`.
pub open spec fn kw_if() -> Seq<u8> {
    seq!['i' as u8, 'f' as u8]
}

/// The bytes of the keyword `else`.
pub open spec fn kw_else() -> Seq<u8> {
    seq!['e' as u8, 'l' as u8, 's' as u8, 'e' as u8]
}

/// The bytes of the keyword `succ`.
pub open spec fn kw_succ() -> Seq<u8> {
    seq!['s' as u8, 'u' as u8, 'c' as u8, 'c' as u8]
}

/// The bytes of the keyword `pred`.
pub open spec fn kw_pred() -> Seq<u8> {
    seq!['p' as u8, 'r' as u8, 'e' as u8, 'd' as u8]
}

/// The bytes of the keyword `iszero`.
pub open spec fn kw_iszero() -> Seq<u8> {
    seq!['i' as u8, 's' as u8, 'z' as u8, 'e' as u8, 'r' as u8, 'o' as u8]
}

/// The token kind an identifier's bytes denote: a keyword's kind for a
/// keyword, `Ident` otherwise.
pub open spec fn keyword_kind(sym: Seq<u8>) -> TokenKind {
    if sym == kw_true() {
        TokenKind::True
    } else if sym == kw_false() {
        TokenKind::False
    } else if sym == kw_if() {
        TokenKind::If
    } else if sym == kw_else() {
        TokenKind::Else
    } else if sym == kw_succ() {
        TokenKind::Succ
    } else if sym == kw_pred() {
        TokenKind::Pred
    } else if sym == kw_iszero() {
        TokenKind::IsZero
    } else {
        TokenKind::Ident
    }
}

/// The kind a single byte lexes to, if any: punctuation, or the numeral
/// `0`.
pub open spec fn single_kind(b: u8) -> Option<TokenKind> {
    if b == '(' as u8 {
        Some(TokenKind::OpenParen)
    } else if b == ')' as u8 {
        Some(TokenKind::CloseParen)
    } else if b == '{' as u8 {
        Some(TokenKind::OpenBrace)
    } else if b == '}' as u8 {
        Some(TokenKind::CloseBrace)
    } else if b == '+' as u8 {
        Some(TokenKind::Plus)
    } else if b == '-' as u8 {
        Some(TokenKind::Minus)
    } else if b == '*' as u8 {
        Some(TokenKind::Star)
    } else if b == '/' as u8 {
        Some(TokenKind::Slash)
    } else if b == ',' as u8 {
        Some(TokenKind::Comma)
    } else if b == '.' as u8 {
        Some(TokenKind::Dot)
    } else if b == ';' as u8 {
        Some(TokenKind::Semi)
    } else if b == ':' as u8 {
        Some(TokenKind::Colon)
    } else if b == '!' as u8 {
        Some(TokenKind::Not)
    } else if b == '=' as u8 {
        Some(TokenKind::Eq)
    } else if b == '>' as u8 {
        Some(TokenKind::Gt)
    } else if b == '<' as u8 {
        Some(TokenKind::Lt)
    } else if b == '|' as u8 {
        Some(TokenKind::Pipe)
    } else if b == '0' as u8 {
        Some(TokenKind::Zero)
    } else {
        None
    }
}

/// Everything one lexing step determines: the token kind (or an
/// unknown-character error), the token's byte range and line, the bytes
/// themselves, and the position the lexer stands at afterwards.
pub struct LexStep {
    pub res: Result<TokenKind, ()>,
    pub lo: int,
    pub hi: int,
    pub line: int,
    pub pos: int,
    pub sym: Seq<u8>,
}

/// The lexing step at position `pos`, line `line`: skip whitespace, then
/// dispatch on the first significant byte.
pub open spec fn lex_sp(src: Seq<u8>, pos: int, line: int) -> LexStep {
    let (i, l) = skip_trivia(src, pos, line);
    if i >= src.len() {
        LexStep {
            res: Result::Ok(TokenKind::Eof),
            lo: i,
            hi: i,
            line: l,
            pos: i,
            sym: Seq::empty(),
        }
    } else {
        let b = src[i];
        match single_kind(b) {
            Some(k) => LexStep {
                res: Result::Ok(k),
                lo: i,
                hi: i + 1,
                line: l,
                pos: i + 1,
                sym: src.subrange(i, i + 1),
            },
            None => if is_alpha_sp(b) {
                let j = ident_end(src, i);
                LexStep {
                    res: Result::Ok(keyword_kind(src.subrange(i, j))),
                    lo: i,
                    hi: j,
                    line: l,
                    pos: j,
                    sym: src.subrange(i, j),
                }
            } else {
                LexStep {
                    res: Result::Err(()),
                    lo: i,
                    hi: i + 1,
                    line: l,
                    pos: i + 1,
                    sym: Seq::empty(),
                }
            },
        }
    }
}

/// Skipping whitespace never moves backwards.
proof fn lemma_skip_trivia_ge(src: Seq<u8>, i: int, line: int)
    requires
        0 <= i,
    ensures
        skip_trivia(src, i, line).0 >= i,
    decreases src.len() - i,
{
    if 0 <= i < src.len() && is_ws_sp(src[i]) {
        lemma_skip_trivia_ge(src, i + 1, line + 1);
        lemma_skip_trivia_ge(src, i + 1, line);
    }
}

/// An identifier run has at least its first byte.
proof fn lemma_ident_end_ge(src: Seq<u8>, i: int)
    requires
        0 <= i,
    ensures
        ident_end(src, i) >= i,
        ident_end(src, i) <= src.len() || ident_end(src, i) == i,
    decreases src.len() - i,
{
    if 0 <= i < src.len() && is_ident_byte_sp(src[i]) {
        lemma_ident_end_ge(src, i + 1);
    }
}

/// Skipping whitespace never moves past the end of the source.
proof fn lemma_skip_trivia_le(src: Seq<u8>, i: int, line: int)
    requires
        0 <= i <= src.len(),
    ensures
        skip_trivia(src, i, line).0 <= src.len(),
    decreases src.len() - i,
{
    if 0 <= i < src.len() && is_ws_sp(src[i]) {
        lemma_skip_trivia_le(src, i + 1, line + 1);
        lemma_skip_trivia_le(src, i + 1, line);
    }
}

/// Bounds on one lexing step: the cursor never moves backwards nor past
/// the end of the source, the token's range lies between the two, and
/// the cursor stands still only when the step produced `Eof`.
pub proof fn lemma_lex_sp_step(src: Seq<u8>, pos: int, line: int)
    requires
        0 <= pos <= src.len(),
    ensures
        ({
            let st = lex_sp(src, pos, line);
            &&& pos <= st.lo <= st.hi <= src.len()
            &&& pos <= st.pos <= src.len()
            &&& (st.res != Result::<TokenKind, ()>::Ok(TokenKind::Eof) ==> pos < st.pos)
        }),
{
    lemma_skip_trivia_ge(src, pos, line);
    lemma_skip_trivia_le(src, pos, line);
    let (i, l) = skip_trivia(src, pos, line);
    if i < src.len() && single_kind(src[i]) is None && is_alpha_sp(src[i]) {
        lemma_ident_end_ge(src, i + 1);
        assert(is_ident_byte_sp(src[i]));
        assert(ident_end(src, i) == ident_end(src, i + 1));
    }
}

/// The keyword dispatch: compare the identifier's bytes against each
/// keyword in turn.
fn classify(src: &Vec<u8>, lo: usize, hi: usize) -> (k: TokenKind)
    requires
        lo <= hi,
        hi <= src@.len(),
    ensures
        k == keyword_kind(src@.subrange(lo as int, hi as int)),
{
    let ghost sym = src@.subrange(lo as int, hi as int);
    let n = hi - lo;
    if n == 2 && src[lo] == 105 && src[lo + 1] == 102 {
        proof {
            assert(sym =~= kw_if());
        }
        TokenKind::If
    } else if n == 4 && src[lo] == 116 && src[lo + 1] == 114 && src[lo + 2] == 117 && src[lo + 3]
        == 101 {
        proof {
            assert(sym =~= kw_true());
        }
        TokenKind::True
    } else if n == 4 && src[lo] == 101 && src[lo + 1] == 108 && src[lo + 2] == 115 && src[lo + 3]
        == 101 {
        proof {
            assert(sym =~= kw_else());
        }
        TokenKind::Else
    } else if n == 4 && src[lo] == 115 && src[lo + 1] == 117 && src[lo + 2] == 99 && src[lo + 3]
        == 99 {
        proof {
            assert(sym =~= kw_succ());
        }
        TokenKind::Succ
    } else if n == 4 && src[lo] == 112 && src[lo + 1] == 114 && src[lo + 2] == 101 && src[lo + 3]
        == 100 {
        proof {
            assert(sym =~= kw_pred());
        }
        TokenKind::Pred
    } else if n == 5 && src[lo] == 102 && src[lo + 1] == 97 && src[lo + 2] == 108 && src[lo + 3]
        == 115 && src[lo + 4] == 101 {
        proof {
            assert(sym =~= kw_false());
        }
        TokenKind::False
    } else if n == 6 && src[lo] == 105 && src[lo + 1] == 115 && src[lo + 2] == 122 && src[lo + 3]
        == 101 && src[lo + 4] == 114 && src[lo + 5] == 111 {
        proof {
            assert(sym =~= kw_iszero());
        }
        TokenKind::IsZero
    } else {
        proof {
            assert(sym.len() == n);
            assert(sym != kw_if());
            assert(sym != kw_true());
            assert(sym != kw_else());
            assert(sym != kw_succ());
            assert(sym != kw_pred());
            assert(sym != kw_false());
            assert(sym != kw_iszero());
        }
        TokenKind::Ident
    }
}

/// The lexer: a cursor over the source bytes, with the start of the
/// token being read and the current line.
pub struct Lexer {
    pub src: Vec<u8>,
    pub start: usize,
    pub pos: usize,
    pub line: usize,
}

impl Lexer {
    /// The lexer's invariant: the cursor is inside the source, and the
    /// line counter cannot overflow even if every remaining byte is a
    /// newline.
    pub open spec fn wf(self) -> bool {
        &&& self.pos <= self.src@.len()
        &&& self.line + (self.src@.len() - self.pos) <= usize::MAX
    }

    /// A lexer at the start of `src`, on line 1.
    pub fn new(src: Vec<u8>) -> (l: Lexer)
        requires
            src@.len() < usize::MAX,
        ensures
            l.src@ == src@,
            l.start == 0,
            l.pos == 0,
            l.line == 1,
            l.wf(),
    {
        Lexer { src, start: 0, pos: 0, line: 1 }
    }

    /// Read the next token: skip whitespace, counting lines, then
    /// dispatch on the first significant byte.  At the end of the input
    /// the token is `Eof`; a byte that starts no token is an
    /// `UnknownCharacter` error.
    pub fn next_token(&mut self) -> (r: Result<Token, LangError>)
        requires
            old(self).wf(),
        ensures
            final(self).wf(),
            final(self).src@ == old(self).src@,
            final(self).pos >= old(self).pos,
            ({
                let st = lex_sp(old(self).src@, old(self).pos as int, old(self).line as int);
                &&& final(self).pos as int == st.pos
                &&& final(self).start as int == st.lo
                &&& final(self).line as int == st.line
                &&& match r {
                    Result::Ok(t) => {
                        &&& st.res matches Result::Ok(k) && t.kind == k
                        &&& t.span.lo as int == st.lo
                        &&& t.span.hi as int == st.hi
                        &&& t.span.line as int == st.line
                        &&& t.symbol@ == st.sym
                    },
                    Result::Err(e) => {
                        &&& st.res is Err
                        &&& e.kind == ErrorKind::UnknownCharacter
                        &&& e.span.lo as int == st.lo
                        &&& e.span.hi as int == st.hi
                        &&& e.span.line as int == st.line
                    },
                }
            }),
            final(self).pos == old(self).pos ==> (r matches Result::Ok(t) && t.kind
                == TokenKind::Eof),
    {
        let ghost src0 = self.src@;
        let ghost pos0 = self.pos as int;
        let ghost line0 = self.line as int;
        proof {
            lemma_skip_trivia_ge(src0, pos0, line0);
        }
        loop
            invariant
                self.wf(),
                self.src@ == src0,
                self.start == old(self).start,
                pos0 <= self.pos as int,
                skip_trivia(src0, pos0, line0) == skip_trivia(
                    src0,
                    self.pos as int,
                    self.line as int,
                ),
            ensures
                self.wf(),
                self.src@ == src0,
                self.start == old(self).start,
                pos0 <= self.pos as int,
                skip_trivia(src0, pos0, line0) == (self.pos as int, self.line as int),
            decreases self.src@.len() - self.pos,
        {
            if self.pos >= self.src.len() {
                proof {
                    assert(skip_trivia(src0, self.pos as int, self.line as int) == (
                        self.pos as int,
                        self.line as int,
                    ));
                }
                break;
            }
            let b = self.src[self.pos];
            if b == 10 {
                self.line = self.line + 1;
                self.pos = self.pos + 1;
            } else if b == 32 || b == 9 || b == 12 || b == 13 {
                self.pos = self.pos + 1;
            } else {
                proof {
                    assert(!is_ws_sp(src0[self.pos as int]));
                    assert(skip_trivia(src0, self.pos as int, self.line as int) == (
                        self.pos as int,
                        self.line as int,
                    ));
                }
                break;
            }
        }
        self.start = self.pos;
        if self.pos >= self.src.len() {
            return Result::Ok(
                Token {
                    kind: TokenKind::Eof,
                    span: Span { lo: self.start, hi: self.pos, line: self.line },
                    symbol: Vec::new(),
                },
            );
        }
        let b = self.src[self.pos];
        let single = if b == 40 {
            Some(TokenKind::OpenParen)
        } else if b == 41 {
            Some(TokenKind::CloseParen)
        } else if b == 123 {
            Some(TokenKind::OpenBrace)
        } else if b == 125 {
            Some(TokenKind::CloseBrace)
        } else if b == 43 {
            Some(TokenKind::Plus)
        } else if b == 45 {
            Some(TokenKind::Minus)
        } else if b == 42 {
            Some(TokenKind::Star)
        } else if b == 47 {
            Some(TokenKind::Slash)
        } else if b == 44 {
            Some(TokenKind::Comma)
        } else if b == 46 {
            Some(TokenKind::Dot)
        } else if b == 59 {
            Some(TokenKind::Semi)
        } else if b == 58 {
            Some(TokenKind::Colon)
        } else if b == 33 {
            Some(TokenKind::Not)
        } else if b == 61 {
            Some(TokenKind::Eq)
        } else if b == 62 {
            Some(TokenKind::Gt)
        } else if b == 60 {
            Some(TokenKind::Lt)
        } else if b == 124 {
            Some(TokenKind::Pipe)
        } else if b == 48 {
            Some(TokenKind::Zero)
        } else {
            None
        };
        proof {
            assert(single == single_kind(b));
        }
        match single {
            Some(kind) => {
                self.pos = self.pos + 1;
                let symbol = slice_bytes(&self.src, self.start, self.pos);
                Result::Ok(
                    Token {
                        kind,
                        span: Span { lo: self.start, hi: self.pos, line: self.line },
                        symbol,
                    },
                )
            },
            None => {
                if (65 <= b && b <= 90) || (97 <= b && b <= 122) {
                    proof {
                        lemma_ident_end_ge(src0, self.pos as int);
                    }
                    let ghost p0 = self.pos as int;
                    let mut j: usize = self.pos;
                    loop
                        invariant
                            p0 <= j as int,
                            j <= self.src@.len(),
                            self.src@ == src0,
                            self.pos as int == p0,
                            ident_end(src0, p0) == ident_end(src0, j as int),
                        ensures
                            p0 <= j as int <= src0.len(),
                            ident_end(src0, p0) == j as int,
                        decreases self.src@.len() - j,
                    {
                        if j >= self.src.len() {
                            proof {
                                assert(ident_end(src0, j as int) == j as int);
                            }
                            break;
                        }
                        let c = self.src[j];
                        if !((65 <= c && c <= 90) || (97 <= c && c <= 122) || (48 <= c && c <= 57)
                            || c == 95) {
                            proof {
                                assert(ident_end(src0, j as int) == j as int);
                            }
                            break;
                        }
                        j = j + 1;
                    }
                    proof {
                        assert(is_ident_byte_sp(src0[p0]));
                        lemma_ident_end_ge(src0, p0 + 1);
                        assert(ident_end(src0, p0) == ident_end(src0, p0 + 1));
                    }
                    let kind = classify(&self.src, self.pos, j);
                    self.pos = j;
                    let symbol = slice_bytes(&self.src, self.start, self.pos);
                    Result::Ok(
                        Token {
                            kind,
                            span: Span { lo: self.start, hi: self.pos, line: self.line },
                            symbol,
                        },
                    )
                } else {
                    self.pos = self.pos + 1;
                    Result::Err(
                        LangError {
                            kind: ErrorKind::UnknownCharacter,
                            span: Span { lo: self.start, hi: self.pos, line: self.line },
                        },
                    )
                }
            },
        }
    }
}

} // verus!
