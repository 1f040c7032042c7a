//! Tests of the typed calculus: evaluation, typing, shifting and
//! substitution, and printing.

use arith::err::ErrorKind;
use arith::syntax::{Binding, Context, Eval, Term, TermKind, Ty, TyContext};

fn engine() -> Eval {
    Eval::new(Vec::new())
}

fn t(kind: TermKind) -> Term {
    Term::new(kind)
}

fn b(kind: TermKind) -> Box<Term> {
    Box::new(Term::new(kind))
}

fn num(n: u32) -> Term {
    let mut cur = t(TermKind::Zero);
    let mut i: u32 = 0;
    while i < n {
        cur = t(TermKind::Succ(Box::new(cur)));
        i += 1;
    }
    cur
}

fn var(idx: u32, len: u32) -> Term {
    t(TermKind::Var { idx, len })
}

fn fun(name: &str, ty: usize, body: Term) -> Term {
    t(TermKind::Fun { name: name.as_bytes().to_vec(), ty, term: Box::new(body) })
}

fn call(callee: Term, arg: Term) -> Term {
    t(TermKind::Call { callee: Box::new(callee), arg: Box::new(arg) })
}

fn if_t(cond: Term, yes: Term, no: Term) -> Term {
    t(TermKind::If {
        cond: Box::new(cond),
        then_branch: Box::new(yes),
        else_branch: Box::new(no),
    })
}

#[test]
fn conditional_on_iszero_evaluates_to_succ_zero() {
    let e = engine();
    let mut ctx = Context::default();
    let term = if_t(t(TermKind::IsZero(b(TermKind::Zero))), num(1), num(0));
    let result = e.eval(&term, &mut ctx);
    assert_eq!(result, num(1));
    let mut buf = Vec::new();
    let mut pctx = Context::default();
    e.print(&result, &mut pctx, &mut buf);
    assert_eq!(buf, b"succ 0".to_vec());
}

#[test]
fn pred_of_two_evaluates_to_one() {
    let e = engine();
    let mut ctx = Context::default();
    let term = t(TermKind::Pred(Box::new(num(2))));
    assert_eq!(e.eval(&term, &mut ctx), num(1));
}

#[test]
fn beta_reduction_of_identity_on_true() {
    let e = engine();
    let mut tyctx = TyContext::new();
    let mut ctx = Context::default();
    let f = fun("x", tyctx.common.boolean, var(0, 1));
    let ty = e.type_of(&f, &ctx, &mut tyctx).unwrap();
    assert_eq!(tyctx.get(ty), Ty::Arrow { from: 0, to: 0 });
    let term = call(f, t(TermKind::True));
    assert_eq!(e.eval(&term, &mut ctx), t(TermKind::True));
}

#[test]
fn beta_reduction_agrees_with_subst_top() {
    // One reduction step on Call(Fun(_, _, body), v) must equal
    // subst_top(body, v) computed directly.
    let e = engine();
    let mut ctx = Context::default();
    let body = t(TermKind::Succ(Box::new(var(0, 1))));
    let v = num(0);
    let direct = e.subst_top(&body, &v);
    let via_eval = e.eval(&call(fun("x", 1, body), v), &mut ctx);
    assert_eq!(direct, num(1));
    assert_eq!(via_eval, direct);
}

#[test]
fn evaluating_a_normal_form_returns_it_unchanged() {
    let e = engine();
    let mut ctx = Context::default();
    let val = fun("x", 0, var(0, 1));
    let once = e.eval(&val, &mut ctx);
    assert_eq!(once, fun("x", 0, var(0, 1)));
    // A stuck non-value also comes back as-is rather than failing.
    let stuck = t(TermKind::Pred(b(TermKind::True)));
    assert_eq!(e.eval(&stuck, &mut ctx), t(TermKind::Pred(b(TermKind::True))));
}

#[test]
fn evaluating_twice_gives_equal_results() {
    let e = engine();
    let mut ctx = Context::default();
    let term = if_t(t(TermKind::IsZero(Box::new(num(2)))), num(3), t(TermKind::Pred(Box::new(num(1)))));
    let r1 = e.eval(&term, &mut ctx);
    let term2 = if_t(t(TermKind::IsZero(Box::new(num(2)))), num(3), t(TermKind::Pred(Box::new(num(1)))));
    let r2 = e.eval(&term2, &mut ctx);
    assert_eq!(r1, r2);
    assert_eq!(r1, num(0));
}

#[test]
fn shift_then_unshift_restores_the_term() {
    let e = engine();
    let term = fun("f", 2, if_t(var(0, 1), var(3, 1), t(TermKind::Succ(Box::new(var(7, 1))))));
    let shifted = e.shift(&term, 5);
    assert_eq!(
        shifted,
        fun("f", 2, if_t(var(0, 6), var(8, 6), t(TermKind::Succ(Box::new(var(12, 6))))))
    );
    assert_eq!(e.shift(&shifted, -5), term);
}

#[test]
fn shift_wraps_indices_modulo_two_to_the_thirty_two() {
    let e = engine();
    let shifted = e.shift(&var(0, 0), -1);
    assert_eq!(shifted, var(u32::MAX, u32::MAX));
    assert_eq!(e.shift(&shifted, 1), var(0, 0));
}

#[test]
fn shift_folds_arithmetic_redexes() {
    // The walk folds pred/iszero redexes even when only shifting, so a
    // term holding one cannot round-trip.
    let e = engine();
    assert_eq!(e.shift(&t(TermKind::Pred(b(TermKind::Zero))), 3), t(TermKind::Zero));
    assert_eq!(
        e.shift(&t(TermKind::IsZero(Box::new(num(1)))), 3),
        t(TermKind::False)
    );
    // pred (succ t) folds to t with t left exactly as it stood.
    let folded = e.shift(&t(TermKind::Pred(Box::new(num(4)))), 3);
    assert_eq!(folded, num(3));
}

#[test]
fn subst_replaces_only_the_target_index() {
    let e = engine();
    let term = if_t(var(0, 2), var(1, 2), t(TermKind::Zero));
    let replaced = e.subst(&term, 0, &t(TermKind::True));
    assert_eq!(replaced, if_t(t(TermKind::True), var(1, 2), t(TermKind::Zero)));
}

#[test]
fn subst_shifts_replacement_under_binders() {
    let e = engine();
    // |x| y  with y at index 1 under the binder; substituting y := Var 0
    // must shift the replacement past the binder.
    let term = fun("x", 0, var(1, 2));
    let replaced = e.subst(&term, 0, &var(0, 1));
    assert_eq!(replaced, fun("x", 0, var(1, 2)));
}

#[test]
fn branches_of_equal_arrow_types_check() {
    // The two arms register two separate arrow rows; typing must compare
    // them structurally, not by handle.
    let e = engine();
    let mut tyctx = TyContext::new();
    let ctx = Context::default();
    let term = if_t(
        t(TermKind::True),
        fun("x", 0, t(TermKind::True)),
        fun("y", 0, t(TermKind::False)),
    );
    let ty = e.type_of(&term, &ctx, &mut tyctx).unwrap();
    assert_eq!(tyctx.get(ty), Ty::Arrow { from: 0, to: 0 });
    assert_eq!(tyctx.print(ty), b"|Bool| Bool".to_vec());
}

#[test]
fn iszero_of_true_fails_with_expected_nat() {
    let e = engine();
    let mut tyctx = TyContext::new();
    let ctx = Context::default();
    let term = t(TermKind::IsZero(b(TermKind::True)));
    let err = e.type_of(&term, &ctx, &mut tyctx).unwrap_err();
    assert_eq!(err.kind, ErrorKind::ExpectedNat);
}

#[test]
fn mismatched_branches_fail_with_branch_mismatch() {
    let e = engine();
    let mut tyctx = TyContext::new();
    let ctx = Context::default();
    let term = if_t(t(TermKind::True), t(TermKind::Zero), t(TermKind::False));
    let err = e.type_of(&term, &ctx, &mut tyctx).unwrap_err();
    assert_eq!(err.kind, ErrorKind::BranchMismatch);
}

#[test]
fn non_boolean_guard_fails_with_guard_not_bool() {
    let e = engine();
    let mut tyctx = TyContext::new();
    let ctx = Context::default();
    let term = if_t(t(TermKind::Zero), t(TermKind::Zero), t(TermKind::Zero));
    let err = e.type_of(&term, &ctx, &mut tyctx).unwrap_err();
    assert_eq!(err.kind, ErrorKind::GuardNotBool);
}

#[test]
fn calling_a_non_function_fails_with_not_a_function() {
    let e = engine();
    let mut tyctx = TyContext::new();
    let ctx = Context::default();
    let term = call(t(TermKind::True), t(TermKind::True));
    let err = e.type_of(&term, &ctx, &mut tyctx).unwrap_err();
    assert_eq!(err.kind, ErrorKind::NotAFunction);
}

#[test]
fn wrong_argument_type_fails_with_arg_type_mismatch() {
    let e = engine();
    let mut tyctx = TyContext::new();
    let ctx = Context::default();
    let term = call(fun("x", 0, var(0, 1)), t(TermKind::Zero));
    let err = e.type_of(&term, &ctx, &mut tyctx).unwrap_err();
    assert_eq!(err.kind, ErrorKind::ArgTypeMismatch);
}

#[test]
fn free_variable_fails_with_unbound_or_wrong_binding() {
    let e = engine();
    let mut tyctx = TyContext::new();
    let ctx = Context::default();
    let err = e.type_of(&var(0, 0), &ctx, &mut tyctx).unwrap_err();
    assert_eq!(err.kind, ErrorKind::UnboundOrWrongBinding);
    // A name-only binding is equally not a variable.
    let ctx2 = ctx.add_binding(&b"x".to_vec(), Binding::Name);
    let err2 = e.type_of(&var(0, 1), &ctx2, &mut tyctx).unwrap_err();
    assert_eq!(err2.kind, ErrorKind::UnboundOrWrongBinding);
}

#[test]
fn context_addresses_entries_by_de_bruijn_index() {
    let ctx = Context::default()
        .add_binding(&b"outer".to_vec(), Binding::Variable(0))
        .add_binding(&b"inner".to_vec(), Binding::Variable(1));
    assert_eq!(ctx.len(), 2);
    assert_eq!(ctx.index_to_name(0), b"inner".to_vec());
    assert_eq!(ctx.index_to_name(1), b"outer".to_vec());
    assert_eq!(ctx.get_ty(arith::span::Span::dummy(), 0).unwrap(), 1);
    assert_eq!(ctx.get_ty(arith::span::Span::dummy(), 1).unwrap(), 0);
    assert!(ctx.is_name_bound(&b"outer".to_vec()));
    assert!(!ctx.is_name_bound(&b"elsewhere".to_vec()));
}

#[test]
fn pick_fresh_name_appends_apostrophes_until_unique() {
    let mut ctx = Context::default();
    assert_eq!(ctx.pick_fresh_name(&b"x".to_vec()), b"x".to_vec());
    assert_eq!(ctx.pick_fresh_name(&b"x".to_vec()), b"x'".to_vec());
    assert_eq!(ctx.pick_fresh_name(&b"x".to_vec()), b"x''".to_vec());
}

#[test]
fn printing_recovers_shadowed_names() {
    let e = engine();
    let mut ctx = Context::default();
    let mut buf = Vec::new();
    let term = fun("x", 0, fun("x", 0, var(0, 2)));
    e.print(&term, &mut ctx, &mut buf);
    assert_eq!(buf, b"(|x| (|x'| x'))".to_vec());
}

#[test]
fn printing_a_mismatched_variable_degrades_to_bad_index() {
    let e = engine();
    let mut ctx = Context::default();
    let mut buf = Vec::new();
    e.print(&var(2, 7), &mut ctx, &mut buf);
    assert_eq!(buf, b"[bad index]".to_vec());
}

#[test]
fn new_ty_resolves_the_lowercase_base_names() {
    let mut tyctx = TyContext::new();
    assert_eq!(tyctx.new_ty(&b"bool".to_vec()), Some(0));
    assert_eq!(tyctx.new_ty(&b"nat".to_vec()), Some(1));
    assert_eq!(tyctx.new_ty(&b"word".to_vec()), None);
}

#[test]
fn nested_arrow_types_render_inside_out() {
    let mut tyctx = TyContext::new();
    let a = tyctx.new_arrow(0, 1);
    let c = tyctx.new_arrow(a, 0);
    assert_eq!(tyctx.print(c), b"||Bool| Nat| Bool".to_vec());
}

#[test]
fn evaluation_preserves_types_on_generated_terms() {
    // Build a family of closed well-typed terms, check each one's type,
    // evaluate to normal form, and check the type again: evaluation must
    // not change it.  Progress holds too: none of them gets stuck.
    let e = engine();
    let mut terms: Vec<Term> = Vec::new();
    for i in 0..7u32 {
        terms.push(if_t(
            t(TermKind::IsZero(Box::new(num(i)))),
            num(i + 1),
            t(TermKind::Pred(Box::new(num(i + 2)))),
        ));
        terms.push(call(
            fun("n", 1, t(TermKind::Succ(Box::new(var(0, 1))))),
            num(i),
        ));
        terms.push(call(
            fun("b", 0, if_t(var(0, 1), num(i), num(i + 3))),
            t(TermKind::IsZero(Box::new(num(i)))),
        ));
        terms.push(call(
            call(
                fun("f", 2, fun("x", 0, call(var(1, 2), var(0, 2)))),
                fun("y", 0, var(0, 1)),
            ),
            t(TermKind::True),
        ));
    }
    assert!(terms.len() >= 20);
    for term in &terms {
        let mut tyctx = TyContext::new();
        tyctx.new_arrow(0, 0);
        let ctx = Context::default();
        let before = e.type_of(term, &ctx, &mut tyctx).unwrap();
        let mut ectx = Context::default();
        let result = e.eval(term, &mut ectx);
        let after = e.type_of(&result, &ctx, &mut tyctx).unwrap();
        assert!(tyctx.ty_eq(before, after), "type changed for {:?}", term);
        assert!(result.is_val(&ctx), "well-typed term got stuck: {:?}", term);
    }
}
