//! Tests of the boolean lambda calculus with tree types.

use arith::err::ErrorKind;
use arith::untyped::{Binding, Context, Term, TermKind, Ty};

fn t(kind: TermKind) -> Term {
    Term::new(kind)
}

fn var(idx: u32, len: u32) -> Term {
    t(TermKind::Var { idx, len })
}

fn fun(name: &str, ty: Ty, body: Term) -> Term {
    t(TermKind::Fun { name: name.as_bytes().to_vec(), ty: Box::new(ty), term: Box::new(body) })
}

fn call(callee: Term, arg: Term) -> Term {
    t(TermKind::Call { callee: Box::new(callee), arg: Box::new(arg) })
}

fn if_t(cond: Term, yes: Term, no: Term) -> Term {
    t(TermKind::If {
        cond: Box::new(cond),
        then_branch: Box::new(yes),
        else_branch: Box::new(no),
    })
}

#[test]
fn nested_abstraction_is_already_a_value() {
    // Fun("a", Call(Fun("b", Var 1), Var 0)) is an abstraction, hence a
    // value: call-by-value does not reduce under the binder, so
    // evaluation returns it unchanged.
    let mut ctx = Context::default();
    let inner = call(fun("b", Ty::Bool, var(1, 2)), var(0, 1));
    let term = fun("a", Ty::Bool, inner);
    let again = fun("a", Ty::Bool, call(fun("b", Ty::Bool, var(1, 2)), var(0, 1)));
    assert_eq!(term.eval(&mut ctx), again);
}

#[test]
fn inner_call_beta_reduces_by_substitution() {
    // Reducing the inner call of Fun("a", Call(Fun("b", Var 1), Var 0))
    // by hand — substituting Var 0 into the body Var 1 — erases the
    // inner binder and leaves Fun("a", Var 0), printed (lambda a. a).
    let body = var(1, 2);
    let arg = var(0, 1);
    let reduced = body.subst_top(&arg);
    assert_eq!(reduced, var(0, 1));
    let whole = fun("a", Ty::Bool, reduced);
    let mut ctx = Context::default();
    let mut buf = Vec::new();
    whole.print(&mut ctx, &mut buf);
    assert_eq!(buf, b"(lambda a. a)".to_vec());
}

#[test]
fn beta_reduction_on_booleans() {
    let mut ctx = Context::default();
    let term = call(fun("x", Ty::Bool, var(0, 1)), t(TermKind::True));
    assert_eq!(term.eval(&mut ctx), t(TermKind::True));
}

#[test]
fn conditional_selects_its_branch() {
    let mut ctx = Context::default();
    let term = if_t(t(TermKind::False), t(TermKind::True), t(TermKind::False));
    assert_eq!(term.eval(&mut ctx), t(TermKind::False));
}

#[test]
fn typing_an_abstraction_builds_an_arrow_tree() {
    let ctx = Context::default();
    let term = fun("x", Ty::Bool, var(0, 1));
    let ty = term.type_of(&ctx).unwrap();
    assert_eq!(ty, Ty::Arrow { from: Box::new(Ty::Bool), to: Box::new(Ty::Bool) });
}

#[test]
fn tree_type_equality_is_structural() {
    // Two arrows built independently compare equal; branches of an `if`
    // may therefore both be abstractions.
    let ctx = Context::default();
    let term = if_t(
        t(TermKind::True),
        fun("x", Ty::Bool, t(TermKind::True)),
        fun("y", Ty::Bool, t(TermKind::False)),
    );
    let ty = term.type_of(&ctx).unwrap();
    assert_eq!(ty, Ty::Arrow { from: Box::new(Ty::Bool), to: Box::new(Ty::Bool) });
}

#[test]
fn untyped_variable_out_of_scope_is_an_error() {
    let ctx = Context::default();
    let err = var(0, 0).type_of(&ctx).unwrap_err();
    assert_eq!(err.kind, ErrorKind::UnboundOrWrongBinding);
}

#[test]
fn untyped_argument_mismatch_is_an_error() {
    let ctx = Context::default();
    let callee = fun(
        "f",
        Ty::Arrow { from: Box::new(Ty::Bool), to: Box::new(Ty::Bool) },
        t(TermKind::True),
    );
    let err = call(callee, t(TermKind::True)).type_of(&ctx).unwrap_err();
    assert_eq!(err.kind, ErrorKind::ArgTypeMismatch);
}

#[test]
fn untyped_shift_round_trips() {
    let term = fun("x", Ty::Bool, if_t(var(0, 1), var(2, 1), var(5, 1)));
    let shifted = term.shift(7);
    assert_eq!(shifted, fun("x", Ty::Bool, if_t(var(0, 8), var(9, 8), var(12, 8))));
    assert_eq!(shifted.shift(-7), term);
}

#[test]
fn untyped_context_binds_types_by_index() {
    let ctx = Context::default().add_binding(&b"x".to_vec(), Binding::Variable(Ty::Bool));
    assert_eq!(ctx.get_ty(arith::span::Span::dummy(), 0).unwrap(), Ty::Bool);
    assert_eq!(
        ctx.get_ty(arith::span::Span::dummy(), 1).unwrap_err().kind,
        ErrorKind::UnboundOrWrongBinding
    );
}
