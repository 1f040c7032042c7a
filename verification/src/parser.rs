//! The recursive-descent parser: tokens in, a typed term out.
//!
//! The grammar is the surface syntax of the typed calculus: the literals
//! `true`, `false` and `0`, the prefix operators `succ`, `pred` and
//! `iszero`, the conditional `if c { t } else { e }`, and function
//! literals `|name: Type| body` with `Bool` and `Nat` as the type names.
//! Every failure — an unknown character, an unexpected token, an unknown
//! type name — comes back as a [`LangError`] value.

use crate::err::{ErrorKind, LangError};
use crate::lexer::{lemma_lex_sp_step, lex_sp, LexStep, Lexer, Token, TokenKind, TokenV};
use crate::span::Span;
use crate::syntax::{
    term_anns_ok, tyctx_wf, Term, TermKind, TermKindV, TermV, TyContext, TypeId,
};
use vstd::prelude::*;

verus! {

/// The bytes of the surface type name `Bool`.
pub open spec fn cap_bool() -> Seq<u8> {
    seq!['B' as u8, 'o' as u8, 'o' as u8, 'l' as u8]
}

/// The bytes of the surface type name `Nat`.
pub open spec fn cap_nat() -> Seq<u8> {
    seq!['N' as u8, 'a' as u8, 't' as u8]
}

/// Whether `v` holds the bytes of `Bool`.
fn is_cap_bool(v: &Vec<u8>) -> (r: bool)
    ensures
        r == (v@ == cap_bool()),
{
    if v.len() == 4 && v[0] == 66 && v[1] == 111 && v[2] == 111 && v[3] == 108 {
        proof {
            assert(v@ =~= cap_bool());
        }
        true
    } else {
        proof {
            assert(v@ != cap_bool());
        }
        false
    }
}

/// Whether `v` holds the bytes of `Nat`.
fn is_cap_nat(v: &Vec<u8>) -> (r: bool)
    ensures
        r == (v@ == cap_nat()),
{
    if v.len() == 3 && v[0] == 78 && v[1] == 97 && v[2] == 116 {
        proof {
            assert(v@ =~= cap_nat());
        }
        true
    } else {
        proof {
            assert(v@ != cap_nat());
        }
        false
    }
}

/// The parser's mathematical state: the lexer's cursor and line, the
/// lookahead token, and the token before it.
pub struct ParseState {
    pub pos: int,
    pub line: int,
    pub curr: TokenV,
    pub prev: TokenV,
}

/// The span of the token (or error) one lexing step produced.
pub open spec fn step_span(st: LexStep) -> Span {
    Span { lo: st.lo as usize, hi: st.hi as usize, line: st.line as usize }
}

/// The placeholder token a fresh parser remembers before anything was
/// consumed: `Eof` with an empty span.
pub open spec fn start_tok() -> TokenV {
    TokenV { kind: TokenKind::Eof, span: Span { lo: 0, hi: 0, line: 0 }, sym: Seq::empty() }
}

/// The parser state before the first token is read: the cursor at the
/// start of the source, on line 1, with placeholder tokens.
pub open spec fn start_state() -> ParseState {
    ParseState { pos: 0, line: 1, curr: start_tok(), prev: start_tok() }
}

/// Reading one token ahead: the lookahead becomes the previous token
/// and the next lexing step fills the lookahead; a byte that starts no
/// token is the lexer's error instead.
pub open spec fn advance_sp(src: Seq<u8>, s: ParseState) -> Result<ParseState, LangError> {
    let st = lex_sp(src, s.pos, s.line);
    match st.res {
        Result::Ok(k) => Result::Ok(
            ParseState {
                pos: st.pos,
                line: st.line,
                curr: TokenV { kind: k, span: step_span(st), sym: st.sym },
                prev: s.curr,
            },
        ),
        Result::Err(_) => Result::Err(
            LangError { kind: ErrorKind::UnknownCharacter, span: step_span(st) },
        ),
    }
}

/// Demanding one token: consume the lookahead when it has the wanted
/// kind, and report `err` at the lookahead's span when it does not.
pub open spec fn consume_sp(src: Seq<u8>, s: ParseState, kind: TokenKind, err: ErrorKind) -> (
    Result<(), LangError>,
    ParseState,
) {
    if s.curr.kind == kind {
        match advance_sp(src, s) {
            Result::Ok(s1) => (Result::Ok(()), s1),
            Result::Err(e) => (Result::Err(e), s),
        }
    } else {
        (Result::Err(LangError { kind: err, span: s.curr.span }), s)
    }
}

/// A parser state whose cursor is inside the source.
pub open spec fn pstate_wf(src: Seq<u8>, s: ParseState) -> bool {
    0 <= s.pos <= src.len()
}

/// How much input a parser state has left.  Consuming any token other
/// than `Eof` strictly decreases it, which bounds the recursion of
/// [`parse_sp`] and of [`Parser::parse_expr`].
pub open spec fn parse_fuel(src: Seq<u8>, s: ParseState) -> int {
    2 * (src.len() - s.pos) + (if s.curr.kind is Eof {
        0int
    } else {
        1int
    })
}

/// One expression parsed from state `s`, with `fuel` bounding the
/// recursion.  Grammatical input yields exactly the term the grammar
/// builds — type annotations use the pre-registered handles, `Bool` at
/// row 0 and `Nat` at row 1 — and anything else yields the error the
/// offending token provokes, at that token's span, paired with the
/// input state.  When `fuel` is at least [`parse_fuel`] the fuel guard
/// can fire only on an exhausted state, where it returns the same
/// unexpected-token error the dispatch would ([`lemma_parse_sp_fuel`]);
/// [`parse_expr_sp`] supplies such a fuel.
pub open spec fn parse_sp(src: Seq<u8>, s: ParseState, fuel: nat) -> (
    Result<TermV, LangError>,
    ParseState,
)
    decreases fuel,
{
    if fuel == 0 {
        (Result::Err(LangError { kind: ErrorKind::UnexpectedToken, span: s.curr.span }), s)
    } else if s.curr.kind == TokenKind::True {
        match advance_sp(src, s) {
            Result::Ok(s1) => (
                Result::Ok(TermV { kind: TermKindV::True, span: s.curr.span }),
                s1,
            ),
            Result::Err(e) => (Result::Err(e), s),
        }
    } else if s.curr.kind == TokenKind::False {
        match advance_sp(src, s) {
            Result::Ok(s1) => (
                Result::Ok(TermV { kind: TermKindV::False, span: s.curr.span }),
                s1,
            ),
            Result::Err(e) => (Result::Err(e), s),
        }
    } else if s.curr.kind == TokenKind::Zero {
        match advance_sp(src, s) {
            Result::Ok(s1) => (
                Result::Ok(TermV { kind: TermKindV::Zero, span: s.curr.span }),
                s1,
            ),
            Result::Err(e) => (Result::Err(e), s),
        }
    } else if s.curr.kind == TokenKind::Succ {
        match advance_sp(src, s) {
            Result::Err(e) => (Result::Err(e), s),
            Result::Ok(s1) => {
                let (r1, s2) = parse_sp(src, s1, (fuel - 1) as nat);
                match r1 {
                    Result::Err(e) => (Result::Err(e), s),
                    Result::Ok(t1) => (
                        Result::Ok(
                            TermV {
                                kind: TermKindV::Succ(Box::new(t1)),
                                span: Span {
                                    lo: s.curr.span.lo,
                                    hi: s2.prev.span.hi,
                                    line: s.curr.span.line,
                                },
                            },
                        ),
                        s2,
                    ),
                }
            },
        }
    } else if s.curr.kind == TokenKind::Pred {
        match advance_sp(src, s) {
            Result::Err(e) => (Result::Err(e), s),
            Result::Ok(s1) => {
                let (r1, s2) = parse_sp(src, s1, (fuel - 1) as nat);
                match r1 {
                    Result::Err(e) => (Result::Err(e), s),
                    Result::Ok(t1) => (
                        Result::Ok(
                            TermV {
                                kind: TermKindV::Pred(Box::new(t1)),
                                span: Span {
                                    lo: s.curr.span.lo,
                                    hi: s2.prev.span.hi,
                                    line: s.curr.span.line,
                                },
                            },
                        ),
                        s2,
                    ),
                }
            },
        }
    } else if s.curr.kind == TokenKind::IsZero {
        match advance_sp(src, s) {
            Result::Err(e) => (Result::Err(e), s),
            Result::Ok(s1) => {
                let (r1, s2) = parse_sp(src, s1, (fuel - 1) as nat);
                match r1 {
                    Result::Err(e) => (Result::Err(e), s),
                    Result::Ok(t1) => (
                        Result::Ok(
                            TermV {
                                kind: TermKindV::IsZero(Box::new(t1)),
                                span: Span {
                                    lo: s.curr.span.lo,
                                    hi: s2.prev.span.hi,
                                    line: s.curr.span.line,
                                },
                            },
                        ),
                        s2,
                    ),
                }
            },
        }
    } else if s.curr.kind == TokenKind::If {
        match advance_sp(src, s) {
            Result::Err(e) => (Result::Err(e), s),
            Result::Ok(s1) => {
                let (rc, s2) = parse_sp(src, s1, (fuel - 1) as nat);
                match rc {
                    Result::Err(e) => (Result::Err(e), s),
                    Result::Ok(cond) => {
                        let (ro, s3) = consume_sp(
                            src,
                            s2,
                            TokenKind::OpenBrace,
                            ErrorKind::ExpectedOpenBraceAfterIf,
                        );
                        match ro {
                            Result::Err(e) => (Result::Err(e), s),
                            Result::Ok(_) => {
                                let (ry, s4) = parse_sp(src, s3, (fuel - 1) as nat);
                                match ry {
                                    Result::Err(e) => (Result::Err(e), s),
                                    Result::Ok(yes) => {
                                        let (rcb, s5) = consume_sp(
                                            src,
                                            s4,
                                            TokenKind::CloseBrace,
                                            ErrorKind::ExpectedCloseBrace,
                                        );
                                        match rcb {
                                            Result::Err(e) => (Result::Err(e), s),
                                            Result::Ok(_) => {
                                                let (re, s6) = consume_sp(
                                                    src,
                                                    s5,
                                                    TokenKind::Else,
                                                    ErrorKind::ExpectedElse,
                                                );
                                                match re {
                                                    Result::Err(e) => (Result::Err(e), s),
                                                    Result::Ok(_) => {
                                                        let (rob, s7) = consume_sp(
                                                            src,
                                                            s6,
                                                            TokenKind::OpenBrace,
                                                            ErrorKind::ExpectedOpenBraceAfterElse,
                                                        );
                                                        match rob {
                                                            Result::Err(e) => (Result::Err(e), s),
                                                            Result::Ok(_) => {
                                                                let (rn, s8) = parse_sp(src, s7, (fuel - 1) as nat);
                                                                match rn {
                                                                    Result::Err(e) => (Result::Err(e), s),
                                                                    Result::Ok(no) => {
                                                                        let (rcb2, s9) = consume_sp(
                                                                            src,
                                                                            s8,
                                                                            TokenKind::CloseBrace,
                                                                            ErrorKind::ExpectedCloseBrace,
                                                                        );
                                                                        match rcb2 {
                                                                            Result::Err(e) => (Result::Err(e), s),
                                                                            Result::Ok(_) => (
                                                                                Result::Ok(
                                                                                    TermV {
                                                                                        kind: TermKindV::If {
                                                                                            cond: Box::new(cond),
                                                                                            then_branch: Box::new(yes),
                                                                                            else_branch: Box::new(no),
                                                                                        },
                                                                                        span: Span {
                                                                                            lo: s.curr.span.lo,
                                                                                            hi: s9.prev.span.hi,
                                                                                            line: s.curr.span.line,
                                                                                        },
                                                                                    },
                                                                                ),
                                                                                s9,
                                                                            ),
                                                                        }
                                                                    },
                                                                }
                                                            },
                                                        }
                                                    },
                                                }
                                            },
                                        }
                                    },
                                }
                            },
                        }
                    },
                }
            },
        }
    } else if s.curr.kind == TokenKind::Pipe {
        match advance_sp(src, s) {
            Result::Err(e) => (Result::Err(e), s),
            Result::Ok(s1) => {
                let (rn, s2) = consume_sp(src, s1, TokenKind::Ident, ErrorKind::ExpectedParamName);
                match rn {
                    Result::Err(e) => (Result::Err(e), s),
                    Result::Ok(_) => {
                        let (rc, s3) = consume_sp(
                            src,
                            s2,
                            TokenKind::Colon,
                            ErrorKind::ExpectedColonAfterParam,
                        );
                        match rc {
                            Result::Err(e) => (Result::Err(e), s),
                            Result::Ok(_) => {
                                let (rt, s4) = consume_sp(
                                    src,
                                    s3,
                                    TokenKind::Ident,
                                    ErrorKind::ExpectedParamType,
                                );
                                match rt {
                                    Result::Err(e) => (Result::Err(e), s),
                                    Result::Ok(_) => {
                                        if s4.prev.sym == cap_bool() || s4.prev.sym == cap_nat() {
                                            let ty: TypeId = if s4.prev.sym == cap_bool() {
                                                0
                                            } else {
                                                1
                                            };
                                            let (rp, s5) = consume_sp(
                                                src,
                                                s4,
                                                TokenKind::Pipe,
                                                ErrorKind::ExpectedPipeAfterParam,
                                            );
                                            match rp {
                                                Result::Err(e) => (Result::Err(e), s),
                                                Result::Ok(_) => {
                                                    let (rb, s6) = parse_sp(src, s5, (fuel - 1) as nat);
                                                    match rb {
                                                        Result::Err(e) => (Result::Err(e), s),
                                                        Result::Ok(body) => (
                                                            Result::Ok(
                                                                TermV {
                                                                    kind: TermKindV::Fun {
                                                                        name: s2.prev.sym,
                                                                        ty,
                                                                        term: Box::new(body),
                                                                    },
                                                                    span: Span {
                                                                        lo: s.curr.span.lo,
                                                                        hi: s6.prev.span.hi,
                                                                        line: s.curr.span.line,
                                                                    },
                                                                },
                                                            ),
                                                            s6,
                                                        ),
                                                    }
                                                },
                                            }
                                        } else {
                                            (
                                                Result::Err(
                                                    LangError {
                                                        kind: ErrorKind::UnknownTypeName,
                                                        span: s4.prev.span,
                                                    },
                                                ),
                                                s,
                                            )
                                        }
                                    },
                                }
                            },
                        }
                    },
                }
            },
        }
    } else {
        (Result::Err(LangError { kind: ErrorKind::UnexpectedToken, span: s.curr.span }), s)
    }
}

/// The parse relation [`Parser::parse_expr`] is held to: [`parse_sp`]
/// with fuel covering the whole remaining input.
pub open spec fn parse_expr_sp(src: Seq<u8>, s: ParseState) -> (Result<TermV, LangError>, ParseState) {
    parse_sp(src, s, parse_fuel(src, s) as nat)
}

/// Advancing keeps the state inside the source, never adds fuel, and
/// burns some whenever the token consumed was not `Eof`.
pub proof fn lemma_advance_sp_fuel(src: Seq<u8>, s: ParseState)
    requires
        pstate_wf(src, s),
    ensures
        advance_sp(src, s) matches Result::Ok(s1) ==> pstate_wf(src, s1) && parse_fuel(src, s1)
            <= parse_fuel(src, s) && (!(s.curr.kind is Eof) ==> parse_fuel(src, s1) < parse_fuel(
            src,
            s,
        )),
{
    lemma_lex_sp_step(src, s.pos, s.line);
}

/// [`lemma_advance_sp_fuel`], lifted to [`consume_sp`].
pub proof fn lemma_consume_sp_fuel(src: Seq<u8>, s: ParseState, kind: TokenKind, err: ErrorKind)
    requires
        pstate_wf(src, s),
    ensures
        ({
            let (r, s1) = consume_sp(src, s, kind, err);
            r is Ok ==> pstate_wf(src, s1) && parse_fuel(src, s1) <= parse_fuel(src, s) && (!(
            kind is Eof) ==> parse_fuel(src, s1) < parse_fuel(src, s))
        }),
{
    lemma_advance_sp_fuel(src, s);
}

/// The fuel bound of [`parse_sp`] is irrelevant once sufficient: any
/// two fuels at least [`parse_fuel`] give the same parse.  Moreover the
/// state a parse leaves is still inside the source, with no more fuel
/// than it started with.
pub proof fn lemma_parse_sp_fuel(src: Seq<u8>, s: ParseState, f1: nat, f2: nat)
    requires
        pstate_wf(src, s),
        parse_fuel(src, s) <= f1,
        f1 <= f2,
    ensures
        parse_sp(src, s, f1) == parse_sp(src, s, f2),
        pstate_wf(src, parse_sp(src, s, f1).1),
        parse_fuel(src, parse_sp(src, s, f1).1) <= parse_fuel(src, s),
    decreases f1,
{
    if f1 == 0 {
        assert(s.curr.kind is Eof);
    } else if s.curr.kind == TokenKind::True || s.curr.kind == TokenKind::False || s.curr.kind
        == TokenKind::Zero {
        lemma_advance_sp_fuel(src, s);
    } else if s.curr.kind == TokenKind::Succ || s.curr.kind == TokenKind::Pred || s.curr.kind
        == TokenKind::IsZero {
        lemma_advance_sp_fuel(src, s);
        match advance_sp(src, s) {
            Result::Ok(s1) => {
                lemma_parse_sp_fuel(src, s1, (f1 - 1) as nat, (f2 - 1) as nat);
            },
            Result::Err(_) => {},
        }
    } else if s.curr.kind == TokenKind::If {
        lemma_advance_sp_fuel(src, s);
        match advance_sp(src, s) {
            Result::Err(_) => {},
            Result::Ok(s1) => {
                lemma_parse_sp_fuel(src, s1, (f1 - 1) as nat, (f2 - 1) as nat);
                let (rc, s2) = parse_sp(src, s1, (f1 - 1) as nat);
                if rc is Ok {
                    lemma_consume_sp_fuel(
                        src,
                        s2,
                        TokenKind::OpenBrace,
                        ErrorKind::ExpectedOpenBraceAfterIf,
                    );
                    let (ro, s3) = consume_sp(
                        src,
                        s2,
                        TokenKind::OpenBrace,
                        ErrorKind::ExpectedOpenBraceAfterIf,
                    );
                    if ro is Ok {
                        lemma_parse_sp_fuel(src, s3, (f1 - 1) as nat, (f2 - 1) as nat);
                        let (ry, s4) = parse_sp(src, s3, (f1 - 1) as nat);
                        if ry is Ok {
                            lemma_consume_sp_fuel(
                                src,
                                s4,
                                TokenKind::CloseBrace,
                                ErrorKind::ExpectedCloseBrace,
                            );
                            let (rcb, s5) = consume_sp(
                                src,
                                s4,
                                TokenKind::CloseBrace,
                                ErrorKind::ExpectedCloseBrace,
                            );
                            if rcb is Ok {
                                lemma_consume_sp_fuel(src, s5, TokenKind::Else, ErrorKind::ExpectedElse);
                                let (re, s6) = consume_sp(
                                    src,
                                    s5,
                                    TokenKind::Else,
                                    ErrorKind::ExpectedElse,
                                );
                                if re is Ok {
                                    lemma_consume_sp_fuel(
                                        src,
                                        s6,
                                        TokenKind::OpenBrace,
                                        ErrorKind::ExpectedOpenBraceAfterElse,
                                    );
                                    let (rob, s7) = consume_sp(
                                        src,
                                        s6,
                                        TokenKind::OpenBrace,
                                        ErrorKind::ExpectedOpenBraceAfterElse,
                                    );
                                    if rob is Ok {
                                        lemma_parse_sp_fuel(src, s7, (f1 - 1) as nat, (f2 - 1) as nat);
                                        let (rn, s8) = parse_sp(src, s7, (f1 - 1) as nat);
                                        if rn is Ok {
                                            lemma_consume_sp_fuel(
                                                src,
                                                s8,
                                                TokenKind::CloseBrace,
                                                ErrorKind::ExpectedCloseBrace,
                                            );
                                        }
                                    }
                                }
                            }
                        }
                    }
                }
            },
        }
    } else if s.curr.kind == TokenKind::Pipe {
        lemma_advance_sp_fuel(src, s);
        match advance_sp(src, s) {
            Result::Err(_) => {},
            Result::Ok(s1) => {
                lemma_consume_sp_fuel(src, s1, TokenKind::Ident, ErrorKind::ExpectedParamName);
                let (rn, s2) = consume_sp(src, s1, TokenKind::Ident, ErrorKind::ExpectedParamName);
                if rn is Ok {
                    lemma_consume_sp_fuel(src, s2, TokenKind::Colon, ErrorKind::ExpectedColonAfterParam);
                    let (rc, s3) = consume_sp(
                        src,
                        s2,
                        TokenKind::Colon,
                        ErrorKind::ExpectedColonAfterParam,
                    );
                    if rc is Ok {
                        lemma_consume_sp_fuel(src, s3, TokenKind::Ident, ErrorKind::ExpectedParamType);
                        let (rt, s4) = consume_sp(
                            src,
                            s3,
                            TokenKind::Ident,
                            ErrorKind::ExpectedParamType,
                        );
                        if rt is Ok {
                            lemma_consume_sp_fuel(
                                src,
                                s4,
                                TokenKind::Pipe,
                                ErrorKind::ExpectedPipeAfterParam,
                            );
                            let (rp, s5) = consume_sp(
                                src,
                                s4,
                                TokenKind::Pipe,
                                ErrorKind::ExpectedPipeAfterParam,
                            );
                            if rp is Ok {
                                lemma_parse_sp_fuel(src, s5, (f1 - 1) as nat, (f2 - 1) as nat);
                            }
                        }
                    }
                }
            },
        }
    }
}

/// The parser: the lexer it drains, the lookahead token, and the token
/// before it.
pub struct Parser {
    pub lexer: Lexer,
    pub curr: Token,
    pub prev: Token,
}

impl Parser {
    /// The parser's invariant: its lexer's.
    pub open spec fn wf(self) -> bool {
        self.lexer.wf()
    }

    /// The parser's mathematical state.
    pub open spec fn pstate(self) -> ParseState {
        ParseState {
            pos: self.lexer.pos as int,
            line: self.lexer.line as int,
            curr: self.curr@,
            prev: self.prev@,
        }
    }

    /// How much input is left: strictly decreases whenever a token other
    /// than `Eof` is consumed, which bounds the recursion.
    pub open spec fn fuel_left(self) -> int {
        2 * (self.lexer.src@.len() - self.lexer.pos) + (if self.curr.kind is Eof {
            0int
        } else {
            1int
        })
    }

    /// A parser over `src` with the first token already read.  It is
    /// returned exactly when the first lexing step succeeds, standing
    /// at [`advance_sp`] from [`start_state`]; a byte that starts no
    /// token at the start of the input is that step's error instead.
    pub fn new(src: Vec<u8>) -> (r: Result<Parser, LangError>)
        requires
            src@.len() < usize::MAX,
        ensures
            match r {
                Result::Ok(p) => p.wf() && p.lexer.src@ == src@ && advance_sp(src@, start_state())
                    == Result::<ParseState, LangError>::Ok(p.pstate()),
                Result::Err(e) => advance_sp(src@, start_state()) == Result::<
                    ParseState,
                    LangError,
                >::Err(e),
            },
    {
        let ghost gsrc = src@;
        let mut lexer = Lexer::new(src);
        let curr = match lexer.next_token() {
            Result::Ok(t) => t,
            Result::Err(e) => {
                proof {
                    let st = lex_sp(gsrc, 0, 1);
                    assert(e.span.lo == st.lo as usize);
                    assert(e.span.hi == st.hi as usize);
                    assert(e.span.line == st.line as usize);
                }
                return Result::Err(e);
            },
        };
        let prev = Token { kind: TokenKind::Eof, span: Span::dummy(), symbol: Vec::new() };
        let p = Parser { lexer, curr, prev };
        proof {
            let st = lex_sp(gsrc, 0, 1);
            assert(p.prev@.sym =~= start_tok().sym);
            assert(p.curr.span.lo == st.lo as usize);
            assert(p.curr.span.hi == st.hi as usize);
            assert(p.curr.span.line == st.line as usize);
            assert(advance_sp(gsrc, start_state()) == Result::<ParseState, LangError>::Ok(
                p.pstate(),
            ));
        }
        Result::Ok(p)
    }

    /// Read the next token into the lookahead, remembering the old
    /// one: [`advance_sp`] on the parser's state, errors included.
    fn advance(&mut self) -> (r: Result<(), LangError>)
        requires
            old(self).wf(),
        ensures
            final(self).wf(),
            final(self).lexer.src@ == old(self).lexer.src@,
            final(self).fuel_left() <= old(self).fuel_left(),
            r is Ok ==> final(self).prev == old(self).curr,
            r is Ok && old(self).curr.kind != TokenKind::Eof ==> final(self).fuel_left() < old(
                self,
            ).fuel_left(),
            match r {
                Result::Ok(_) => advance_sp(old(self).lexer.src@, old(self).pstate()) == Result::<
                    ParseState,
                    LangError,
                >::Ok(final(self).pstate()),
                Result::Err(e) => advance_sp(old(self).lexer.src@, old(self).pstate()) == Result::<
                    ParseState,
                    LangError,
                >::Err(e),
            },
    {
        let ghost gsrc = self.lexer.src@;
        let ghost s0 = self.pstate();
        let mut t = match self.lexer.next_token() {
            Result::Ok(t) => t,
            Result::Err(e) => {
                proof {
                    let st = lex_sp(gsrc, s0.pos, s0.line);
                    assert(e.span.lo == st.lo as usize);
                    assert(e.span.hi == st.hi as usize);
                    assert(e.span.line == st.line as usize);
                }
                return Result::Err(e);
            },
        };
        core::mem::swap(&mut self.curr, &mut t);
        self.prev = t;
        proof {
            let st = lex_sp(gsrc, s0.pos, s0.line);
            assert(self.curr.span.lo == st.lo as usize);
            assert(self.curr.span.hi == st.hi as usize);
            assert(self.curr.span.line == st.line as usize);
            assert(advance_sp(gsrc, s0) == Result::<ParseState, LangError>::Ok(self.pstate()));
        }
        Result::Ok(())
    }

    /// Consume the lookahead if it has the wanted kind.
    fn eat(&mut self, kind: TokenKind) -> (r: Result<bool, LangError>)
        requires
            old(self).wf(),
        ensures
            final(self).wf(),
            final(self).lexer.src@ == old(self).lexer.src@,
            final(self).fuel_left() <= old(self).fuel_left(),
            match r {
                Result::Ok(true) => old(self).curr.kind == kind && final(self).prev == old(
                    self,
                ).curr && advance_sp(old(self).lexer.src@, old(self).pstate()) == Result::<
                    ParseState,
                    LangError,
                >::Ok(final(self).pstate()) && (kind != TokenKind::Eof ==> final(self).fuel_left()
                    < old(self).fuel_left()),
                Result::Ok(false) => *final(self) == *old(self) && old(self).curr.kind != kind,
                Result::Err(e) => old(self).curr.kind == kind && advance_sp(
                    old(self).lexer.src@,
                    old(self).pstate(),
                ) == Result::<ParseState, LangError>::Err(e),
            },
    {
        if self.curr.kind == kind {
            match self.advance() {
                Result::Ok(()) => Result::Ok(true),
                Result::Err(e) => Result::Err(e),
            }
        } else {
            Result::Ok(false)
        }
    }

    /// Consume the lookahead if it has the wanted kind; otherwise fail
    /// with `err` at the lookahead's span: [`consume_sp`] on the
    /// parser's state.
    fn consume(&mut self, kind: TokenKind, err: ErrorKind) -> (r: Result<(), LangError>)
        requires
            old(self).wf(),
        ensures
            final(self).wf(),
            final(self).lexer.src@ == old(self).lexer.src@,
            final(self).fuel_left() <= old(self).fuel_left(),
            ({
                let (cr, cs) = consume_sp(old(self).lexer.src@, old(self).pstate(), kind, err);
                match r {
                    Result::Ok(()) => old(self).curr.kind == kind && final(self).prev == old(
                        self,
                    ).curr && cr == Result::<(), LangError>::Ok(()) && final(self).pstate() == cs
                        && (kind != TokenKind::Eof ==> final(self).fuel_left() < old(
                        self,
                    ).fuel_left()),
                    Result::Err(e) => cr == Result::<(), LangError>::Err(e),
                }
            }),
    {
        match self.eat(kind) {
            Result::Ok(true) => Result::Ok(()),
            Result::Ok(false) => Result::Err(LangError { kind: err, span: self.curr.span }),
            Result::Err(e) => Result::Err(e),
        }
    }

    /// The rest of a conditional, once its `if` keyword at `lo` is
    /// consumed: the condition, the braced branches and the `else`
    /// between them.  `gs` is the state the conditional started from
    /// and `gf` a sufficient fuel for it; the result is the `If` arm of
    /// [`parse_sp`] there.
    #[verifier::rlimit(100)]
    fn parse_if_rest(
        &mut self,
        tcx: &mut TyContext,
        lo: Span,
        gs: Ghost<ParseState>,
        gf: Ghost<nat>,
    ) -> (r: Result<Term, LangError>)
        requires
            old(self).wf(),
            tyctx_wf(*old(tcx)),
            pstate_wf(old(self).lexer.src@, gs@),
            gs@.curr.kind == TokenKind::If,
            lo == gs@.curr.span,
            parse_fuel(old(self).lexer.src@, gs@) <= gf@,
            advance_sp(old(self).lexer.src@, gs@) == Result::<ParseState, LangError>::Ok(
                old(self).pstate(),
            ),
            old(self).fuel_left() < parse_fuel(old(self).lexer.src@, gs@),
        ensures
            final(self).wf(),
            final(self).lexer.src@ == old(self).lexer.src@,
            *final(tcx) == *old(tcx),
            final(self).fuel_left() <= old(self).fuel_left(),
            r matches Result::Ok(t) ==> term_anns_ok(t@, old(tcx).types@.len() as int),
            ({
                let (pr, ps) = parse_sp(old(self).lexer.src@, gs@, gf@);
                match r {
                    Result::Ok(t) => pr == Result::<TermV, LangError>::Ok(t@)
                        && final(self).pstate() == ps,
                    Result::Err(e) => pr == Result::<TermV, LangError>::Err(e),
                }
            }),
        decreases old(self).fuel_left(), 1int,
    {
        let ghost gsrc = self.lexer.src@;
        let ghost s1 = self.pstate();
        let cond = match self.parse_expr(tcx) {
            Result::Ok(t) => t,
            Result::Err(e) => {
                proof {
                    lemma_parse_sp_fuel(gsrc, s1, parse_fuel(gsrc, s1) as nat, (gf@ - 1) as nat);
                }
                return Result::Err(e);
            },
        };
        proof {
            lemma_parse_sp_fuel(gsrc, s1, parse_fuel(gsrc, s1) as nat, (gf@ - 1) as nat);
        }
        match self.consume(TokenKind::OpenBrace, ErrorKind::ExpectedOpenBraceAfterIf) {
            Result::Ok(()) => (),
            Result::Err(e) => {
                return Result::Err(e);
            },
        }
        let ghost s3 = self.pstate();
        let yes = match self.parse_expr(tcx) {
            Result::Ok(t) => t,
            Result::Err(e) => {
                proof {
                    lemma_parse_sp_fuel(gsrc, s3, parse_fuel(gsrc, s3) as nat, (gf@ - 1) as nat);
                }
                return Result::Err(e);
            },
        };
        proof {
            lemma_parse_sp_fuel(gsrc, s3, parse_fuel(gsrc, s3) as nat, (gf@ - 1) as nat);
        }
        match self.consume(TokenKind::CloseBrace, ErrorKind::ExpectedCloseBrace) {
            Result::Ok(()) => (),
            Result::Err(e) => {
                return Result::Err(e);
            },
        }
        match self.consume(TokenKind::Else, ErrorKind::ExpectedElse) {
            Result::Ok(()) => (),
            Result::Err(e) => {
                return Result::Err(e);
            },
        }
        match self.consume(TokenKind::OpenBrace, ErrorKind::ExpectedOpenBraceAfterElse) {
            Result::Ok(()) => (),
            Result::Err(e) => {
                return Result::Err(e);
            },
        }
        let ghost s7 = self.pstate();
        let no = match self.parse_expr(tcx) {
            Result::Ok(t) => t,
            Result::Err(e) => {
                proof {
                    lemma_parse_sp_fuel(gsrc, s7, parse_fuel(gsrc, s7) as nat, (gf@ - 1) as nat);
                }
                return Result::Err(e);
            },
        };
        proof {
            lemma_parse_sp_fuel(gsrc, s7, parse_fuel(gsrc, s7) as nat, (gf@ - 1) as nat);
        }
        match self.consume(TokenKind::CloseBrace, ErrorKind::ExpectedCloseBrace) {
            Result::Ok(()) => (),
            Result::Err(e) => {
                return Result::Err(e);
            },
        }
        let span = lo.to(self.prev.span);
        Result::Ok(
            Term::with_span(
                TermKind::If {
                    cond: Box::new(cond),
                    then_branch: Box::new(yes),
                    else_branch: Box::new(no),
                },
                span,
            ),
        )
    }

    /// The rest of a function literal, once its opening `|` at `lo` is
    /// consumed: the parameter's name, `:`, its type, the closing `|`
    /// and the body.  `gs` is the state the literal started from and
    /// `gf` a sufficient fuel for it; the result is the function-
    /// literal arm of [`parse_sp`] there.
    #[verifier::rlimit(100)]
    fn parse_fun_rest(
        &mut self,
        tcx: &mut TyContext,
        lo: Span,
        gs: Ghost<ParseState>,
        gf: Ghost<nat>,
    ) -> (r: Result<Term, LangError>)
        requires
            old(self).wf(),
            tyctx_wf(*old(tcx)),
            pstate_wf(old(self).lexer.src@, gs@),
            gs@.curr.kind == TokenKind::Pipe,
            lo == gs@.curr.span,
            parse_fuel(old(self).lexer.src@, gs@) <= gf@,
            advance_sp(old(self).lexer.src@, gs@) == Result::<ParseState, LangError>::Ok(
                old(self).pstate(),
            ),
            old(self).fuel_left() < parse_fuel(old(self).lexer.src@, gs@),
        ensures
            final(self).wf(),
            final(self).lexer.src@ == old(self).lexer.src@,
            *final(tcx) == *old(tcx),
            final(self).fuel_left() <= old(self).fuel_left(),
            r matches Result::Ok(t) ==> term_anns_ok(t@, old(tcx).types@.len() as int),
            ({
                let (pr, ps) = parse_sp(old(self).lexer.src@, gs@, gf@);
                match r {
                    Result::Ok(t) => pr == Result::<TermV, LangError>::Ok(t@)
                        && final(self).pstate() == ps,
                    Result::Err(e) => pr == Result::<TermV, LangError>::Err(e),
                }
            }),
        decreases old(self).fuel_left(), 1int,
    {
        let ghost gsrc = self.lexer.src@;
        match self.consume(TokenKind::Ident, ErrorKind::ExpectedParamName) {
            Result::Ok(()) => (),
            Result::Err(e) => {
                return Result::Err(e);
            },
        }
        let name = crate::util::slice_bytes(&self.prev.symbol, 0, self.prev.symbol.len());
        proof {
            assert(name@ =~= self.prev.symbol@);
        }
        match self.consume(TokenKind::Colon, ErrorKind::ExpectedColonAfterParam) {
            Result::Ok(()) => (),
            Result::Err(e) => {
                return Result::Err(e);
            },
        }
        match self.consume(TokenKind::Ident, ErrorKind::ExpectedParamType) {
            Result::Ok(()) => (),
            Result::Err(e) => {
                return Result::Err(e);
            },
        }
        let ty = if is_cap_bool(&self.prev.symbol) {
            tcx.common.boolean
        } else if is_cap_nat(&self.prev.symbol) {
            tcx.common.nat
        } else {
            return Result::Err(
                LangError { kind: ErrorKind::UnknownTypeName, span: self.prev.span },
            );
        };
        match self.consume(TokenKind::Pipe, ErrorKind::ExpectedPipeAfterParam) {
            Result::Ok(()) => (),
            Result::Err(e) => {
                return Result::Err(e);
            },
        }
        let ghost s5 = self.pstate();
        let body = match self.parse_expr(tcx) {
            Result::Ok(t) => t,
            Result::Err(e) => {
                proof {
                    lemma_parse_sp_fuel(gsrc, s5, parse_fuel(gsrc, s5) as nat, (gf@ - 1) as nat);
                }
                return Result::Err(e);
            },
        };
        proof {
            lemma_parse_sp_fuel(gsrc, s5, parse_fuel(gsrc, s5) as nat, (gf@ - 1) as nat);
        }
        let span = lo.to(self.prev.span);
        Result::Ok(Term::with_span(TermKind::Fun { name, ty, term: Box::new(body) }, span))
    }

    /// Parse one expression: exactly the parse [`parse_expr_sp`]
    /// describes on the parser's state.  Grammatical input yields the
    /// term the grammar builds — its type annotations all point at the
    /// pre-registered base types, so it can be handed to the type
    /// checker under the same table — and anything else yields the
    /// error the offending token provokes, at that token's span.
    #[verifier::rlimit(100)]
    pub fn parse_expr(&mut self, tcx: &mut TyContext) -> (r: Result<Term, LangError>)
        requires
            old(self).wf(),
            tyctx_wf(*old(tcx)),
        ensures
            final(self).wf(),
            final(self).lexer.src@ == old(self).lexer.src@,
            *final(tcx) == *old(tcx),
            final(self).fuel_left() <= old(self).fuel_left(),
            r matches Result::Ok(t) ==> term_anns_ok(t@, old(tcx).types@.len() as int),
            ({
                let (pr, ps) = parse_expr_sp(old(self).lexer.src@, old(self).pstate());
                match r {
                    Result::Ok(t) => pr == Result::<TermV, LangError>::Ok(t@)
                        && final(self).pstate() == ps,
                    Result::Err(e) => pr == Result::<TermV, LangError>::Err(e),
                }
            }),
        decreases old(self).fuel_left(), 0int,
    {
        let ghost gsrc = self.lexer.src@;
        let ghost s0 = self.pstate();
        let ghost gf = parse_fuel(gsrc, s0) as nat;
        if match self.eat(TokenKind::True) {
            Result::Ok(b) => b,
            Result::Err(e) => {
                return Result::Err(e);
            },
        } {
            return Result::Ok(Term::with_span(TermKind::True, self.prev.span));
        }
        if match self.eat(TokenKind::False) {
            Result::Ok(b) => b,
            Result::Err(e) => {
                return Result::Err(e);
            },
        } {
            return Result::Ok(Term::with_span(TermKind::False, self.prev.span));
        }
        if match self.eat(TokenKind::Zero) {
            Result::Ok(b) => b,
            Result::Err(e) => {
                return Result::Err(e);
            },
        } {
            return Result::Ok(Term::with_span(TermKind::Zero, self.prev.span));
        }
        if match self.eat(TokenKind::Succ) {
            Result::Ok(b) => b,
            Result::Err(e) => {
                return Result::Err(e);
            },
        } {
            let ghost s1 = self.pstate();
            let lo = self.prev.span;
            let term = match self.parse_expr(tcx) {
                Result::Ok(t) => t,
                Result::Err(e) => {
                    proof {
                        lemma_parse_sp_fuel(gsrc, s1, parse_fuel(gsrc, s1) as nat, (gf - 1) as nat);
                    }
                    return Result::Err(e);
                },
            };
            proof {
                lemma_parse_sp_fuel(gsrc, s1, parse_fuel(gsrc, s1) as nat, (gf - 1) as nat);
            }
            return Result::Ok(
                Term::with_span(TermKind::Succ(Box::new(term)), lo.to(self.prev.span)),
            );
        }
        if match self.eat(TokenKind::Pred) {
            Result::Ok(b) => b,
            Result::Err(e) => {
                return Result::Err(e);
            },
        } {
            let ghost s1 = self.pstate();
            let lo = self.prev.span;
            let term = match self.parse_expr(tcx) {
                Result::Ok(t) => t,
                Result::Err(e) => {
                    proof {
                        lemma_parse_sp_fuel(gsrc, s1, parse_fuel(gsrc, s1) as nat, (gf - 1) as nat);
                    }
                    return Result::Err(e);
                },
            };
            proof {
                lemma_parse_sp_fuel(gsrc, s1, parse_fuel(gsrc, s1) as nat, (gf - 1) as nat);
            }
            return Result::Ok(
                Term::with_span(TermKind::Pred(Box::new(term)), lo.to(self.prev.span)),
            );
        }
        if match self.eat(TokenKind::IsZero) {
            Result::Ok(b) => b,
            Result::Err(e) => {
                return Result::Err(e);
            },
        } {
            let ghost s1 = self.pstate();
            let lo = self.prev.span;
            let term = match self.parse_expr(tcx) {
                Result::Ok(t) => t,
                Result::Err(e) => {
                    proof {
                        lemma_parse_sp_fuel(gsrc, s1, parse_fuel(gsrc, s1) as nat, (gf - 1) as nat);
                    }
                    return Result::Err(e);
                },
            };
            proof {
                lemma_parse_sp_fuel(gsrc, s1, parse_fuel(gsrc, s1) as nat, (gf - 1) as nat);
            }
            return Result::Ok(
                Term::with_span(TermKind::IsZero(Box::new(term)), lo.to(self.prev.span)),
            );
        }
        if match self.eat(TokenKind::If) {
            Result::Ok(b) => b,
            Result::Err(e) => {
                return Result::Err(e);
            },
        } {
            let lo = self.prev.span;
            return self.parse_if_rest(tcx, lo, Ghost(s0), Ghost(gf));
        }
        if match self.eat(TokenKind::Pipe) {
            Result::Ok(b) => b,
            Result::Err(e) => {
                return Result::Err(e);
            },
        } {
            let lo = self.prev.span;
            return self.parse_fun_rest(tcx, lo, Ghost(s0), Ghost(gf));
        }
        Result::Err(LangError { kind: ErrorKind::UnexpectedToken, span: self.curr.span })
    }
}

} // verus!

