//! Tests of the arithmetic fragment, the lexer, the parser, and the
//! diagnostic renderer — ending with the whole pipeline on one program.

use arith::err::{Diagnostic, ErrorKind};
use arith::initial;
use arith::lexer::{Lexer, TokenKind};
use arith::parser::Parser;
use arith::span::Span;
use arith::syntax::{Context, Eval, Ty, TyContext};

fn a(kind: initial::TermKind) -> initial::Term {
    initial::Term::new(kind)
}

fn anum(n: u32) -> initial::Term {
    let mut cur = a(initial::TermKind::Zero);
    let mut i: u32 = 0;
    while i < n {
        cur = a(initial::TermKind::Succ(Box::new(cur)));
        i += 1;
    }
    cur
}

#[test]
fn arith_conditional_evaluates_to_succ_zero() {
    let term = a(initial::TermKind::If(
        Box::new(a(initial::TermKind::IsZero(Box::new(a(initial::TermKind::Zero))))),
        Box::new(anum(1)),
        Box::new(anum(0)),
    ));
    assert_eq!(term.eval(), anum(1));
}

#[test]
fn arith_pred_of_two_evaluates_to_one() {
    let term = a(initial::TermKind::Pred(Box::new(anum(2))));
    assert_eq!(term.eval(), anum(1));
    assert!(term.is_val() == false);
    assert!(anum(2).is_numeric());
    assert!(anum(2).is_val());
}

#[test]
fn arith_stuck_term_is_returned_unchanged() {
    let stuck = a(initial::TermKind::Succ(Box::new(a(initial::TermKind::True))));
    assert_eq!(stuck.eval(), a(initial::TermKind::Succ(Box::new(a(initial::TermKind::True)))));
}

#[test]
fn lexer_splits_keywords_punctuation_and_identifiers() {
    let mut lx = Lexer::new(b"if x0 { 0 } else |:".to_vec());
    let kinds = [
        TokenKind::If,
        TokenKind::Ident,
        TokenKind::OpenBrace,
        TokenKind::Zero,
        TokenKind::CloseBrace,
        TokenKind::Else,
        TokenKind::Pipe,
        TokenKind::Colon,
        TokenKind::Eof,
    ];
    for want in kinds {
        let tok = lx.next_token().unwrap();
        assert_eq!(tok.kind, want);
    }
}

#[test]
fn lexer_reports_symbols_spans_and_lines() {
    let mut lx = Lexer::new(b"succ\npred".to_vec());
    let t1 = lx.next_token().unwrap();
    assert_eq!(t1.kind, TokenKind::Succ);
    assert_eq!(t1.symbol, b"succ".to_vec());
    assert_eq!((t1.span.lo, t1.span.hi, t1.span.line), (0, 4, 1));
    let t2 = lx.next_token().unwrap();
    assert_eq!(t2.kind, TokenKind::Pred);
    assert_eq!(t2.symbol, b"pred".to_vec());
    assert_eq!((t2.span.lo, t2.span.hi, t2.span.line), (5, 9, 2));
}

#[test]
fn lexer_rejects_an_unknown_character() {
    let mut lx = Lexer::new(b"  ?".to_vec());
    let err = lx.next_token().unwrap_err();
    assert_eq!(err.kind, ErrorKind::UnknownCharacter);
    assert_eq!((err.span.lo, err.span.hi), (2, 3));
}

#[test]
fn parser_reads_the_sample_program() {
    let src = b"if true { |x: Bool| true } else { |y: Bool| false }".to_vec();
    let mut p = Parser::new(src.clone()).unwrap();
    let mut tyctx = TyContext::new();
    let term = p.parse_expr(&mut tyctx).unwrap();

    let eval = Eval::new(src);
    let ctx = Context::default();
    let ty = eval.type_of(&term, &ctx, &mut tyctx).unwrap();
    assert_eq!(tyctx.get(ty), Ty::Arrow { from: 0, to: 0 });
    assert_eq!(tyctx.print(ty), b"|Bool| Bool".to_vec());

    let mut pctx = Context::default();
    let mut before = Vec::new();
    eval.print(&term, &mut pctx, &mut before);
    assert_eq!(before, b"if true { (|x| true) } else { (|y| false) }".to_vec());

    let mut ectx = Context::default();
    let result = eval.eval(&term, &mut ectx);
    let mut pctx2 = Context::default();
    let mut after = Vec::new();
    eval.print(&result, &mut pctx2, &mut after);
    assert_eq!(after, b"(|x| true)".to_vec());
}

#[test]
fn parser_reads_nat_annotations_and_numerals() {
    let src = b"(".to_vec();
    let mut p = Parser::new(src).unwrap();
    let mut tyctx = TyContext::new();
    let err = p.parse_expr(&mut tyctx).unwrap_err();
    assert_eq!(err.kind, ErrorKind::UnexpectedToken);

    let src2 = b"|n: Nat| iszero pred 0".to_vec();
    let mut p2 = Parser::new(src2.clone()).unwrap();
    let term = p2.parse_expr(&mut tyctx).unwrap();
    let eval = Eval::new(src2);
    let ctx = Context::default();
    let ty = eval.type_of(&term, &ctx, &mut tyctx).unwrap();
    assert_eq!(tyctx.get(ty), Ty::Arrow { from: 1, to: 0 });
}

#[test]
fn parser_reports_each_missing_piece() {
    let cases: [(&[u8], ErrorKind); 9] = [
        (b"if true true", ErrorKind::ExpectedOpenBraceAfterIf),
        (b"if true { 0 true", ErrorKind::ExpectedCloseBrace),
        (b"if true { 0 } 0", ErrorKind::ExpectedElse),
        (b"if true { 0 } else 0", ErrorKind::ExpectedOpenBraceAfterElse),
        (b"|0", ErrorKind::ExpectedParamName),
        (b"|x 0", ErrorKind::ExpectedColonAfterParam),
        (b"|x: 0", ErrorKind::ExpectedParamType),
        (b"|x: Int| true", ErrorKind::UnknownTypeName),
        (b"|x: Bool true", ErrorKind::ExpectedPipeAfterParam),
    ];
    for (src, want) in cases {
        let mut p = Parser::new(src.to_vec()).unwrap();
        let mut tyctx = TyContext::new();
        let err = p.parse_expr(&mut tyctx).unwrap_err();
        assert_eq!(err.kind, want, "source: {:?}", String::from_utf8_lossy(src));
    }
}

#[test]
fn lexer_returns_eof_forever_on_empty_input() {
    let mut lx = Lexer::new(Vec::new());
    assert_eq!(lx.next_token().unwrap().kind, TokenKind::Eof);
    assert_eq!(lx.next_token().unwrap().kind, TokenKind::Eof);
}

#[test]
fn diagnostic_renders_a_caret_under_the_span() {
    let src = b"abc\ndef".to_vec();
    let d = Diagnostic::new(&src, b"broken".to_vec(), Span { lo: 5, hi: 6, line: 2 });
    assert_eq!(d.report(), b"def\n ^ broken".to_vec());
}

#[test]
fn diagnostic_degrades_past_the_end_of_source() {
    let src = b"ab".to_vec();
    let d = Diagnostic::new(&src, b"late".to_vec(), Span { lo: 5, hi: 9, line: 1 });
    assert_eq!(d.report(), b"ab\n  ^ late".to_vec());
}

#[test]
fn diagnostic_spanning_lines_prints_the_message_indented() {
    let src = b"ab\ncd".to_vec();
    let d = Diagnostic::new(&src, b"wide".to_vec(), Span { lo: 1, hi: 4, line: 1 });
    assert_eq!(d.report(), b"ab\ncd\n wide".to_vec());
}

#[test]
fn parser_reads_succ_zero_exactly() {
    let src = b"succ 0".to_vec();
    let mut p = Parser::new(src).unwrap();
    let mut tyctx = TyContext::new();
    let term = p.parse_expr(&mut tyctx).unwrap();
    assert_eq!((term.span.lo, term.span.hi, term.span.line), (0, 6, 1));
    match term.kind {
        arith::syntax::TermKind::Succ(inner) => {
            assert_eq!((inner.span.lo, inner.span.hi), (5, 6));
            assert!(matches!(inner.kind, arith::syntax::TermKind::Zero));
        }
        other => panic!("expected succ, got {:?}", other),
    }
    let eof = p.lexer.next_token().unwrap();
    assert_eq!(eof.kind, TokenKind::Eof);
}
