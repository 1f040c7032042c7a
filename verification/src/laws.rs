//! Proved laws of the typed calculus: how shifting, substitution,
//! evaluation and typing relate.
//!
//! Each law is stated over the specification functions of [`crate::syntax`],
//! which the executable functions are proved to implement exactly, so what
//! is proved here holds of the running code.

use crate::syntax::{
    eval1_sp, eval_result, is_numeric_sp, is_val_sp, normal_sp, next_cut, shift_above_sp, shift_sp,
    steps_n, subst_sp, subst_top_sp, type_of_sp, wadd, TermKindV, TermV, Ty, TyV, TypeId,
};
use crate::err::LangError;
use crate::span::Span;
use vstd::prelude::*;

verus! {

/// Whether `t` contains no foldable arithmetic redex: no `pred` or
/// `iszero` applied directly to `0` or to a `succ` node.  On such terms
/// the shift/substitution walk is a pure renumbering; on any other term
/// it also simplifies, so a shift cannot be undone.
pub open spec fn fold_free(t: TermV) -> bool
    decreases t,
{
    match t.kind {
        TermKindV::If { cond, then_branch, else_branch } => fold_free(*cond) && fold_free(
            *then_branch,
        ) && fold_free(*else_branch),
        TermKindV::Succ(t1) => fold_free(*t1),
        TermKindV::Pred(t1) => !(t1.kind is Zero) && !(t1.kind is Succ) && fold_free(*t1),
        TermKindV::IsZero(t1) => !(t1.kind is Zero) && !(t1.kind is Succ) && fold_free(*t1),
        TermKindV::Var { idx, len } => true,
        TermKindV::Fun { name, ty, term } => fold_free(*term),
        TermKindV::Call { callee, arg } => fold_free(*callee) && fold_free(*arg),
        _ => true,
    }
}

/// Shifting a fold-free term folds nothing: the result is fold-free and
/// every node keeps its constructor.
proof fn lemma_shift_keeps_shape(t: TermV, c: u32, d: i32)
    requires
        fold_free(t),
    ensures
        fold_free(shift_above_sp(t, c, d)),
        (shift_above_sp(t, c, d).kind is Zero) == (t.kind is Zero),
        (shift_above_sp(t, c, d).kind is Succ) == (t.kind is Succ),
    decreases t,
{
    match t.kind {
        TermKindV::If { cond, then_branch, else_branch } => {
            lemma_shift_keeps_shape(*cond, c, d);
            lemma_shift_keeps_shape(*then_branch, c, d);
            lemma_shift_keeps_shape(*else_branch, c, d);
        },
        TermKindV::Succ(t1) => {
            lemma_shift_keeps_shape(*t1, c, d);
        },
        TermKindV::Pred(t1) => {
            lemma_shift_keeps_shape(*t1, c, d);
        },
        TermKindV::IsZero(t1) => {
            lemma_shift_keeps_shape(*t1, c, d);
        },
        TermKindV::Fun { name, ty, term } => {
            lemma_shift_keeps_shape(*term, next_cut(c), d);
        },
        TermKindV::Call { callee, arg } => {
            lemma_shift_keeps_shape(*callee, c, d);
            lemma_shift_keeps_shape(*arg, c, d);
        },
        _ => {},
    }
}

/// Whether shifting by `d` keeps every free variable of `t` free: no
/// index at or above its cutoff lands below it.  Shifting down by more
/// than a free variable's distance to the cutoff would capture it under
/// a binder, and that cannot be undone.
pub open spec fn shift_stays_free(t: TermV, c: u32, d: i32) -> bool
    decreases t,
{
    match t.kind {
        TermKindV::If { cond, then_branch, else_branch } => shift_stays_free(*cond, c, d)
            && shift_stays_free(*then_branch, c, d) && shift_stays_free(*else_branch, c, d),
        TermKindV::Succ(t1) => shift_stays_free(*t1, c, d),
        TermKindV::Pred(t1) => shift_stays_free(*t1, c, d),
        TermKindV::IsZero(t1) => shift_stays_free(*t1, c, d),
        TermKindV::Var { idx, len } => idx >= c ==> wadd(idx, d) >= c,
        TermKindV::Fun { name, ty, term } => shift_stays_free(*term, next_cut(c), d),
        TermKindV::Call { callee, arg } => shift_stays_free(*callee, c, d) && shift_stays_free(
            *arg,
            c,
            d,
        ),
        _ => true,
    }
}

/// Index arithmetic wraps modulo 2^32, so moving by `d` and back by `-d`
/// restores any index.
proof fn lemma_wadd_round_trip(x: u32, d: i32)
    requires
        d > i32::MIN,
    ensures
        wadd(wadd(x, d), (-d) as i32) == x,
{
}

/// Shifting by `d` at any cutoff and then by `-d` at the same cutoff
/// restores a fold-free term exactly.
proof fn lemma_shift_round_trip_above(t: TermV, c: u32, d: i32)
    requires
        fold_free(t),
        shift_stays_free(t, c, d),
        d > i32::MIN,
    ensures
        shift_above_sp(shift_above_sp(t, c, d), c, (-d) as i32) == t,
    decreases t,
{
    match t.kind {
        TermKindV::If { cond, then_branch, else_branch } => {
            lemma_shift_round_trip_above(*cond, c, d);
            lemma_shift_round_trip_above(*then_branch, c, d);
            lemma_shift_round_trip_above(*else_branch, c, d);
        },
        TermKindV::Succ(t1) => {
            lemma_shift_round_trip_above(*t1, c, d);
        },
        TermKindV::Pred(t1) => {
            lemma_shift_keeps_shape(*t1, c, d);
            lemma_shift_round_trip_above(*t1, c, d);
        },
        TermKindV::IsZero(t1) => {
            lemma_shift_keeps_shape(*t1, c, d);
            lemma_shift_round_trip_above(*t1, c, d);
        },
        TermKindV::Var { idx, len } => {
            lemma_wadd_round_trip(len, d);
            if idx >= c {
                lemma_wadd_round_trip(idx, d);
            }
        },
        TermKindV::Fun { name, ty, term } => {
            lemma_shift_round_trip_above(*term, next_cut(c), d);
        },
        TermKindV::Call { callee, arg } => {
            lemma_shift_round_trip_above(*callee, c, d);
            lemma_shift_round_trip_above(*arg, c, d);
        },
        _ => {},
    }
}

/// Shift/unshift round trip: shifting every free variable by `d` and
/// then by `-d` gives back a structurally equal term, provided the term
/// holds no foldable arithmetic redex (on `pred 0`, for instance, the
/// first shift already folds, so no round trip is possible) and no free
/// variable crosses its binder cutoff (shifting `Fun(x. Var 2)` by `-2`
/// captures the variable, which cannot be undone either).
pub proof fn lemma_shift_unshift(t: TermV, d: i32)
    requires
        fold_free(t),
        shift_stays_free(t, 0, d),
        d > i32::MIN,
    ensures
        shift_sp(shift_sp(t, d), (-d) as i32) == t,
{
    lemma_shift_round_trip_above(t, 0, d);
}

/// Beta-reduction computes substitution: one reduction step on
/// `Call(Fun(name, ty, body), v)` with `v` a value yields exactly
/// `subst_top_sp(body, v)`.
pub proof fn lemma_beta_is_subst_top(
    name: Seq<u8>,
    ty: TypeId,
    body: TermV,
    v: TermV,
    fun_span: Span,
    call_span: Span,
)
    requires
        is_val_sp(v),
    ensures
        eval1_sp(
            TermV {
                kind: TermKindV::Call {
                    callee: Box::new(
                        TermV {
                            kind: TermKindV::Fun { name, ty, term: Box::new(body) },
                            span: fun_span,
                        },
                    ),
                    arg: Box::new(v),
                },
                span: call_span,
            },
        ) == Some(subst_top_sp(body, v)),
{
}

/// `t` reaches normal form `r`.
pub open spec fn evals_to(t: TermV, r: TermV) -> bool {
    exists|n: nat| steps_n(t, r, n) && normal_sp(r)
}

/// A term with no applicable rule evaluates to itself and to nothing
/// else: evaluation leaves an already-normal term unchanged.
pub proof fn lemma_normal_form_fixed(t: TermV)
    requires
        normal_sp(t),
    ensures
        evals_to(t, t),
        forall|r: TermV| evals_to(t, r) ==> r == t,
        forall|r: TermV| eval_result(t, r) ==> r == t,
{
    assert(steps_n(t, t, 0) && normal_sp(t));
    assert forall|r: TermV| eval_result(t, r) implies r == t by {
        let n = choose|n: nat| steps_n(t, r, n) && (normal_sp(r) || n == u64::MAX);
        if n != 0 {
            assert(eval1_sp(t) is Some);
        }
    }
    assert forall|r: TermV| evals_to(t, r) implies r == t by {
        let n = choose|n: nat| steps_n(t, r, n) && normal_sp(r);
        if n != 0 {
            assert(eval1_sp(t) is Some);
        }
    }
}

proof fn lemma_steps_confluent(t: TermV, r1: TermV, n1: nat, r2: TermV, n2: nat)
    requires
        steps_n(t, r1, n1),
        normal_sp(r1),
        steps_n(t, r2, n2),
        normal_sp(r2),
    ensures
        r1 == r2,
    decreases n1,
{
    if n1 == 0 {
        if n2 != 0 {
            assert(eval1_sp(t) is Some);
        }
    } else {
        if n2 == 0 {
            assert(eval1_sp(t) is Some);
        } else {
            lemma_steps_confluent(
                eval1_sp(t)->Some_0,
                r1,
                (n1 - 1) as nat,
                r2,
                (n2 - 1) as nat,
            );
        }
    }
}

/// One rule applies to any term at most, so reduction is deterministic
/// and normal forms are unique: evaluating a term to normal form twice
/// yields structurally equal results.
pub proof fn lemma_eval_deterministic(t: TermV, r1: TermV, r2: TermV)
    requires
        evals_to(t, r1),
        evals_to(t, r2),
    ensures
        r1 == r2,
{
    let n1 = choose|n: nat| steps_n(t, r1, n) && normal_sp(r1);
    let n2 = choose|n: nat| steps_n(t, r2, n) && normal_sp(r2);
    lemma_steps_confluent(t, r1, n1, r2, n2);
}

/// Canonical forms: a value of type `Bool` is a boolean literal, one of
/// type `Nat` is a numeral, and one of arrow type is an abstraction.
proof fn lemma_canonical_forms(tys: Seq<Ty>, g: Seq<Option<TyV>>, v: TermV, ty: TyV)
    requires
        is_val_sp(v),
        type_of_sp(tys, g, v) == Result::<TyV, LangError>::Ok(ty),
    ensures
        ty == TyV::Bool ==> (v.kind is True || v.kind is False),
        ty == TyV::Nat ==> is_numeric_sp(v),
        ty is Arrow ==> v.kind is Fun,
{
    match v.kind {
        TermKindV::Succ(t1) => {
            assert(is_numeric_sp(v));
        },
        _ => {},
    }
}

/// Progress: a closed well-typed term is never stuck — it is a value, or
/// a reduction rule applies to it.
pub proof fn lemma_progress(tys: Seq<Ty>, t: TermV)
    requires
        type_of_sp(tys, Seq::<Option<TyV>>::empty(), t) is Ok,
    ensures
        is_val_sp(t) || eval1_sp(t) is Some,
    decreases t,
{
    let g = Seq::<Option<TyV>>::empty();
    match t.kind {
        TermKindV::If { cond, then_branch, else_branch } => {
            let tc = type_of_sp(tys, g, *cond)->Ok_0;
            lemma_progress(tys, *cond);
            if is_val_sp(*cond) {
                lemma_canonical_forms(tys, g, *cond, tc);
            }
        },
        TermKindV::Succ(t1) => {
            lemma_progress(tys, *t1);
            if is_val_sp(*t1) {
                lemma_canonical_forms(tys, g, *t1, type_of_sp(tys, g, *t1)->Ok_0);
                assert(is_numeric_sp(t));
            }
        },
        TermKindV::Pred(t1) => {
            lemma_progress(tys, *t1);
            if is_val_sp(*t1) {
                lemma_canonical_forms(tys, g, *t1, type_of_sp(tys, g, *t1)->Ok_0);
            }
        },
        TermKindV::IsZero(t1) => {
            lemma_progress(tys, *t1);
            if is_val_sp(*t1) {
                lemma_canonical_forms(tys, g, *t1, type_of_sp(tys, g, *t1)->Ok_0);
            }
        },
        TermKindV::Call { callee, arg } => {
            let tf = type_of_sp(tys, g, *callee)->Ok_0;
            lemma_progress(tys, *callee);
            lemma_progress(tys, *arg);
            if is_val_sp(*callee) {
                lemma_canonical_forms(tys, g, *callee, tf);
            }
        },
        _ => {},
    }
}

/// Whether `t` holds no variable node at all.  Such a term neither
/// reads the typing context nor changes under any shift.
pub open spec fn var_free(t: TermV) -> bool
    decreases t,
{
    match t.kind {
        TermKindV::If { cond, then_branch, else_branch } => var_free(*cond) && var_free(
            *then_branch,
        ) && var_free(*else_branch),
        TermKindV::Succ(t1) => var_free(*t1),
        TermKindV::Pred(t1) => var_free(*t1),
        TermKindV::IsZero(t1) => var_free(*t1),
        TermKindV::Var { idx, len } => false,
        TermKindV::Fun { name, ty, term } => var_free(*term),
        TermKindV::Call { callee, arg } => var_free(*callee) && var_free(*arg),
        _ => true,
    }
}

/// How deeply function binders nest in `t`.
pub open spec fn fdepth(t: TermV) -> nat
    decreases t,
{
    match t.kind {
        TermKindV::If { cond, then_branch, else_branch } => {
            let a = fdepth(*cond);
            let b = fdepth(*then_branch);
            let c = fdepth(*else_branch);
            if a >= b && a >= c {
                a
            } else if b >= c {
                b
            } else {
                c
            }
        },
        TermKindV::Succ(t1) => fdepth(*t1),
        TermKindV::Pred(t1) => fdepth(*t1),
        TermKindV::IsZero(t1) => fdepth(*t1),
        TermKindV::Fun { name, ty, term } => 1 + fdepth(*term),
        TermKindV::Call { callee, arg } => {
            let a = fdepth(*callee);
            let b = fdepth(*arg);
            if a >= b {
                a
            } else {
                b
            }
        },
        _ => 0,
    }
}

/// Whether every variable of `t` is in scope under `m` outer binders:
/// an index at binder depth `j` inside `t` stays below `m + j`.
pub open spec fn scoped(t: TermV, m: int) -> bool
    decreases t,
{
    match t.kind {
        TermKindV::If { cond, then_branch, else_branch } => scoped(*cond, m) && scoped(
            *then_branch,
            m,
        ) && scoped(*else_branch, m),
        TermKindV::Succ(t1) => scoped(*t1, m),
        TermKindV::Pred(t1) => scoped(*t1, m),
        TermKindV::IsZero(t1) => scoped(*t1, m),
        TermKindV::Var { idx, len } => idx < m,
        TermKindV::Fun { name, ty, term } => scoped(*term, m + 1),
        TermKindV::Call { callee, arg } => scoped(*callee, m) && scoped(*arg, m),
        _ => true,
    }
}

/// A well-typed term is well-scoped: typing admits an index only below
/// the context's length.
proof fn lemma_typing_scoped(tys: Seq<Ty>, g: Seq<Option<TyV>>, t: TermV)
    requires
        type_of_sp(tys, g, t) is Ok,
    ensures
        scoped(t, g.len() as int),
    decreases t,
{
    match t.kind {
        TermKindV::If { cond, then_branch, else_branch } => {
            lemma_typing_scoped(tys, g, *cond);
            lemma_typing_scoped(tys, g, *then_branch);
            lemma_typing_scoped(tys, g, *else_branch);
        },
        TermKindV::Succ(t1) => {
            lemma_typing_scoped(tys, g, *t1);
        },
        TermKindV::Pred(t1) => {
            lemma_typing_scoped(tys, g, *t1);
        },
        TermKindV::IsZero(t1) => {
            lemma_typing_scoped(tys, g, *t1);
        },
        TermKindV::Fun { name, ty, term } => {
            let from = crate::syntax::ty_interp(tys, ty as int);
            lemma_typing_scoped(tys, seq![Some(from)] + g, *term);
        },
        TermKindV::Call { callee, arg } => {
            lemma_typing_scoped(tys, g, *callee);
            lemma_typing_scoped(tys, g, *arg);
        },
        _ => {},
    }
}

/// A numeral has no variables and no foldable redex.
proof fn lemma_numeric_props(v: TermV)
    requires
        is_numeric_sp(v),
    ensures
        var_free(v),
        fold_free(v),
        scoped(v, 0),
        fdepth(v) == 0,
    decreases v,
{
    match v.kind {
        TermKindV::Succ(t1) => {
            lemma_numeric_props(*t1);
        },
        _ => {},
    }
}

/// A term without variables — and without foldable redexes, which a
/// shift would rewrite — passes through any shift unchanged.
proof fn lemma_var_free_shift_id(v: TermV, c: u32, d: i32)
    requires
        var_free(v),
        fold_free(v),
    ensures
        shift_above_sp(v, c, d) == v,
    decreases v,
{
    match v.kind {
        TermKindV::If { cond, then_branch, else_branch } => {
            lemma_var_free_shift_id(*cond, c, d);
            lemma_var_free_shift_id(*then_branch, c, d);
            lemma_var_free_shift_id(*else_branch, c, d);
        },
        TermKindV::Succ(t1) => {
            lemma_var_free_shift_id(*t1, c, d);
        },
        TermKindV::Pred(t1) => {
            lemma_var_free_shift_id(*t1, c, d);
        },
        TermKindV::IsZero(t1) => {
            lemma_var_free_shift_id(*t1, c, d);
        },
        TermKindV::Fun { name, ty, term } => {
            lemma_var_free_shift_id(*term, next_cut(c), d);
        },
        TermKindV::Call { callee, arg } => {
            lemma_var_free_shift_id(*callee, c, d);
            lemma_var_free_shift_id(*arg, c, d);
        },
        _ => {},
    }
}

/// A term without variables has the same type under every context.
proof fn lemma_var_free_typing(tys: Seq<Ty>, g1: Seq<Option<TyV>>, g2: Seq<Option<TyV>>, v: TermV)
    requires
        var_free(v),
    ensures
        type_of_sp(tys, g1, v) == type_of_sp(tys, g2, v),
    decreases v,
{
    match v.kind {
        TermKindV::If { cond, then_branch, else_branch } => {
            lemma_var_free_typing(tys, g1, g2, *cond);
            lemma_var_free_typing(tys, g1, g2, *then_branch);
            lemma_var_free_typing(tys, g1, g2, *else_branch);
        },
        TermKindV::Succ(t1) => {
            lemma_var_free_typing(tys, g1, g2, *t1);
        },
        TermKindV::Pred(t1) => {
            lemma_var_free_typing(tys, g1, g2, *t1);
        },
        TermKindV::IsZero(t1) => {
            lemma_var_free_typing(tys, g1, g2, *t1);
        },
        TermKindV::Fun { name, ty, term } => {
            let from = crate::syntax::ty_interp(tys, ty as int);
            lemma_var_free_typing(tys, seq![Some(from)] + g1, seq![Some(from)] + g2, *term);
        },
        TermKindV::Call { callee, arg } => {
            lemma_var_free_typing(tys, g1, g2, *callee);
            lemma_var_free_typing(tys, g1, g2, *arg);
        },
        _ => {},
    }
}

/// Composing a modular index move with another gives the move by the
/// sum, whenever all three distances fit `i32`.
proof fn lemma_wadd_compose(x: u32, d1: i32, d2: i32)
    requires
        i32::MIN <= d1 + d2 <= i32::MAX,
    ensures
        wadd(wadd(x, d1), d2) == wadd(x, (d1 + d2) as i32),
{
}

/// Two shifts compose into one: shifting by `a >= 0` at cutoff `c` and
/// then by `b` at a cutoff `e` between `c` and `c + a` moves every free
/// variable by `a + b`, as one shift by `a + b` at `c` would.  The
/// bound `m` keeps the index arithmetic out of the wrapping range.
proof fn lemma_shift_compose(v: TermV, c: u32, e: u32, a: i32, b: i32, m: int)
    requires
        fold_free(v),
        scoped(v, m),
        0 <= a,
        0 <= a + b,
        b <= 0x1000_0000,
        c <= e <= c + a,
        0 <= m,
        m + 3 * fdepth(v) + a + c + c < 0x4000_0000,
    ensures
        shift_above_sp(shift_above_sp(v, c, a), e, b) == shift_above_sp(v, c, (a + b) as i32),
    decreases v,
{
    lemma_shift_keeps_shape(v, c, a);
    match v.kind {
        TermKindV::If { cond, then_branch, else_branch } => {
            lemma_shift_compose(*cond, c, e, a, b, m);
            lemma_shift_compose(*then_branch, c, e, a, b, m);
            lemma_shift_compose(*else_branch, c, e, a, b, m);
        },
        TermKindV::Succ(t1) => {
            lemma_shift_compose(*t1, c, e, a, b, m);
        },
        TermKindV::Pred(t1) => {
            lemma_shift_keeps_shape(*t1, c, a);
            lemma_shift_compose(*t1, c, e, a, b, m);
        },
        TermKindV::IsZero(t1) => {
            lemma_shift_keeps_shape(*t1, c, a);
            lemma_shift_compose(*t1, c, e, a, b, m);
        },
        TermKindV::Var { idx, len } => {
            lemma_wadd_compose(len, a, b);
            if idx >= c {
                assert(idx < m);
                assert(wadd(idx, a) == idx + a);
                assert(wadd(idx, a) >= e);
                assert(wadd(wadd(idx, a), b) == idx + a + b);
                assert(wadd(idx, (a + b) as i32) == idx + a + b);
            } else {
                assert(idx < e);
            }
        },
        TermKindV::Fun { name, ty, term } => {
            assert(next_cut(c) == c + 1);
            assert(next_cut(e) == e + 1);
            lemma_shift_compose(*term, next_cut(c), next_cut(e), a, b, m + 1);
        },
        TermKindV::Call { callee, arg } => {
            lemma_shift_compose(*callee, c, e, a, b, m);
            lemma_shift_compose(*arg, c, e, a, b, m);
        },
        _ => {},
    }
}

/// Weakening: inserting bindings `d` at position `c1.len()` of the
/// context types the correspondingly shifted term the same.
proof fn lemma_weakening(
    tys: Seq<Ty>,
    c1: Seq<Option<TyV>>,
    d: Seq<Option<TyV>>,
    c2: Seq<Option<TyV>>,
    t: TermV,
    ty: TyV,
)
    requires
        fold_free(t),
        type_of_sp(tys, c1 + c2, t) == Result::<TyV, LangError>::Ok(ty),
        c1.len() + d.len() + c2.len() + fdepth(t) < 0x4000_0000,
    ensures
        type_of_sp(
            tys,
            c1 + d + c2,
            shift_above_sp(t, c1.len() as u32, d.len() as i32),
        ) == Result::<TyV, LangError>::Ok(ty),
    decreases t,
{
    let c = c1.len() as u32;
    let dd = d.len() as i32;
    let g = c1 + c2;
    let g2 = c1 + d + c2;
    match t.kind {
        TermKindV::If { cond, then_branch, else_branch } => {
            let tc = type_of_sp(tys, g, *cond)->Ok_0;
            let t1 = type_of_sp(tys, g, *then_branch)->Ok_0;
            lemma_weakening(tys, c1, d, c2, *cond, tc);
            lemma_weakening(tys, c1, d, c2, *then_branch, t1);
            lemma_weakening(tys, c1, d, c2, *else_branch, t1);
        },
        TermKindV::Succ(t1) => {
            lemma_weakening(tys, c1, d, c2, *t1, TyV::Nat);
        },
        TermKindV::Pred(t1) => {
            lemma_weakening(tys, c1, d, c2, *t1, TyV::Nat);
        },
        TermKindV::IsZero(t1) => {
            lemma_weakening(tys, c1, d, c2, *t1, TyV::Nat);
        },
        TermKindV::Var { idx, len } => {
            assert(0 <= idx < g.len());
            if idx >= c {
                assert(g[idx as int] == c2[idx - c1.len()]);
                assert(wadd(idx, dd) == idx + d.len());
                assert(g2[idx + d.len()] == c2[idx - c1.len()]);
            } else {
                assert(g[idx as int] == c1[idx as int]);
                assert(g2[idx as int] == c1[idx as int]);
            }
        },
        TermKindV::Fun { name, ty: ann, term } => {
            let from = crate::syntax::ty_interp(tys, ann as int);
            let to = type_of_sp(tys, seq![Some(from)] + g, *term)->Ok_0;
            assert(seq![Some(from)] + (c1 + c2) =~= (seq![Some(from)] + c1) + c2);
            lemma_weakening(tys, seq![Some(from)] + c1, d, c2, *term, to);
            assert((seq![Some(from)] + c1) + d + c2 =~= seq![Some(from)] + (c1 + d + c2));
            assert(next_cut(c) == c + 1);
        },
        TermKindV::Call { callee, arg } => {
            let tf = type_of_sp(tys, g, *callee)->Ok_0;
            let ta = type_of_sp(tys, g, *arg)->Ok_0;
            lemma_weakening(tys, c1, d, c2, *callee, tf);
            lemma_weakening(tys, c1, d, c2, *arg, ta);
        },
        _ => {},
    }
}

/// A numeral types as `Nat` in every context.
proof fn lemma_numeral_typing(tys: Seq<Ty>, g: Seq<Option<TyV>>, v: TermV)
    requires
        is_numeric_sp(v),
    ensures
        type_of_sp(tys, g, v) == Result::<TyV, LangError>::Ok(TyV::Nat),
    decreases v,
{
    match v.kind {
        TermKindV::Succ(t1) => {
            lemma_numeral_typing(tys, g, *t1);
        },
        _ => {},
    }
}

/// On a fold-free term that is not a variable, substitution keeps the
/// head constructor away from `Zero` and `Succ`.
proof fn lemma_subst_head(t1: TermV, j: u32, s: TermV, c: u32)
    requires
        fold_free(t1),
        !(t1.kind is Var),
        !(t1.kind is Zero),
        !(t1.kind is Succ),
    ensures
        !(subst_sp(t1, j, s, c).kind is Zero),
        !(subst_sp(t1, j, s, c).kind is Succ),
        !(subst_sp(t1, j, s, c).kind is Var) || t1.kind is Var,
{
    match t1.kind {
        TermKindV::If { cond, then_branch, else_branch } => {},
        TermKindV::Pred(u) => {},
        TermKindV::IsZero(u) => {},
        TermKindV::Fun { name, ty, term } => {},
        TermKindV::Call { callee, arg } => {},
        _ => {},
    }
}

/// Substituting a well-typed value for the variable at the crossed
/// binder — shift up, substitute, shift back down, exactly as
/// [`subst_top_sp`] computes under `bctx.len()` further binders —
/// preserves the term's type.
proof fn lemma_subst_preserves(
    tys: Seq<Ty>,
    bctx: Seq<Option<TyV>>,
    g: Seq<Option<TyV>>,
    sv: TyV,
    t: TermV,
    v: TermV,
    ty: TyV,
)
    requires
        type_of_sp(tys, bctx + seq![Some(sv)] + g, t) == Result::<TyV, LangError>::Ok(ty),
        type_of_sp(tys, g, v) == Result::<TyV, LangError>::Ok(sv),
        is_val_sp(v),
        fold_free(v),
        fold_free(t),
        bctx.len() + g.len() + 3 * fdepth(t) + 3 * fdepth(v) + 8 < 0x1000_0000,
    ensures
        type_of_sp(
            tys,
            bctx + g,
            shift_above_sp(
                subst_sp(t, 0, shift_sp(v, 1i32), bctx.len() as u32),
                bctx.len() as u32,
                -1i32,
            ),
        ) == Result::<TyV, LangError>::Ok(ty),
    decreases t,
{
    let k = bctx.len() as u32;
    let gk = bctx + seq![Some(sv)] + g;
    let gr = bctx + g;
    let v1 = shift_sp(v, 1i32);
    lemma_typing_scoped(tys, g, v);
    match t.kind {
        TermKindV::Var { idx, len } => {
            assert(0 <= idx < gk.len());
            if idx == k {
                assert(gk[idx as int] == Some(sv));
                lemma_shift_compose(v, 0, 0, 1, k as i32, g.len() as int);
                lemma_shift_compose(v, 0, k, (1 + k) as i32, -1i32, g.len() as int);
                assert(shift_above_sp(subst_sp(t, 0, v1, k), k, -1i32) == shift_above_sp(
                    v,
                    0,
                    k as i32,
                ));
                lemma_weakening(tys, Seq::empty(), bctx, g, v, sv);
                assert(Seq::<Option<TyV>>::empty() + g =~= g);
                assert(Seq::<Option<TyV>>::empty() + bctx + g =~= bctx + g);
            } else if idx < k {
                assert(gk[idx as int] == bctx[idx as int]);
                assert(gr[idx as int] == bctx[idx as int]);
            } else {
                assert(gk[idx as int] == g[idx - k - 1]);
                assert(wadd(idx, -1i32) == idx - 1);
                assert(gr[idx as int - 1] == g[idx - k - 1]);
            }
        },
        TermKindV::Fun { name, ty: ann, term } => {
            let from = crate::syntax::ty_interp(tys, ann as int);
            let to = type_of_sp(tys, seq![Some(from)] + gk, *term)->Ok_0;
            assert(seq![Some(from)] + (bctx + seq![Some(sv)] + g) =~= (seq![Some(from)] + bctx)
                + seq![Some(sv)] + g);
            lemma_subst_preserves(tys, seq![Some(from)] + bctx, g, sv, *term, v, to);
            assert((seq![Some(from)] + bctx) + g =~= seq![Some(from)] + (bctx + g));
            assert(next_cut(k) == k + 1);
            assert((seq![Some(from)] + bctx).len() as u32 == next_cut(k));
        },
        TermKindV::If { cond, then_branch, else_branch } => {
            let tc = type_of_sp(tys, gk, *cond)->Ok_0;
            let t1 = type_of_sp(tys, gk, *then_branch)->Ok_0;
            lemma_subst_preserves(tys, bctx, g, sv, *cond, v, tc);
            lemma_subst_preserves(tys, bctx, g, sv, *then_branch, v, t1);
            lemma_subst_preserves(tys, bctx, g, sv, *else_branch, v, t1);
        },
        TermKindV::Succ(t1) => {
            lemma_subst_preserves(tys, bctx, g, sv, *t1, v, TyV::Nat);
        },
        TermKindV::Pred(t1) => {
            assert(!(t1.kind is Zero) && !(t1.kind is Succ));
            if t1.kind matches TermKindV::Var { idx, len } && idx == k {
                let idx = t1.kind->Var_idx;
                assert(gk[idx as int] == Some(sv));
                assert(type_of_sp(tys, gk, *t1) == Result::<TyV, LangError>::Ok(sv));
                assert(sv == TyV::Nat);
                lemma_canonical_forms(tys, g, v, sv);
                lemma_numeric_props(v);
                lemma_shift_compose(v, 0, 0, 1, k as i32, g.len() as int);
                lemma_var_free_shift_id(v, 0, (1 + k) as i32);
                assert(subst_sp(*t1, 0, v1, k) == v);
                if v.kind is Zero {
                    assert(shift_above_sp(subst_sp(t, 0, v1, k), k, -1i32) == TermV {
                        kind: TermKindV::Zero,
                        span: t.span,
                    });
                } else {
                    let m = v.kind->Succ_0;
                    assert(is_numeric_sp(*m));
                    assert(shift_above_sp(subst_sp(t, 0, v1, k), k, -1i32) == *m);
                    lemma_numeral_typing(tys, gr, *m);
                }
            } else {
                lemma_subst_preserves(tys, bctx, g, sv, *t1, v, TyV::Nat);
                if t1.kind is Var {
                    let idx = t1.kind->Var_idx;
                    assert(idx != k);
                    assert(!(subst_sp(*t1, 0, v1, k).kind is Zero));
                    assert(!(subst_sp(*t1, 0, v1, k).kind is Succ));
                } else {
                    lemma_subst_head(*t1, 0, v1, k);
                }
            }
        },
        TermKindV::IsZero(t1) => {
            assert(!(t1.kind is Zero) && !(t1.kind is Succ));
            if t1.kind matches TermKindV::Var { idx, len } && idx == k {
                let idx = t1.kind->Var_idx;
                assert(gk[idx as int] == Some(sv));
                assert(type_of_sp(tys, gk, *t1) == Result::<TyV, LangError>::Ok(sv));
                assert(sv == TyV::Nat);
                lemma_canonical_forms(tys, g, v, sv);
                lemma_numeric_props(v);
                lemma_shift_compose(v, 0, 0, 1, k as i32, g.len() as int);
                lemma_var_free_shift_id(v, 0, (1 + k) as i32);
                assert(subst_sp(*t1, 0, v1, k) == v);
                if v.kind is Zero {
                    assert(shift_above_sp(subst_sp(t, 0, v1, k), k, -1i32) == TermV {
                        kind: TermKindV::True,
                        span: t.span,
                    });
                } else {
                    assert(shift_above_sp(subst_sp(t, 0, v1, k), k, -1i32) == TermV {
                        kind: TermKindV::False,
                        span: t.span,
                    });
                }
            } else {
                lemma_subst_preserves(tys, bctx, g, sv, *t1, v, TyV::Nat);
                if t1.kind is Var {
                    let idx = t1.kind->Var_idx;
                    assert(idx != k);
                } else {
                    lemma_subst_head(*t1, 0, v1, k);
                }
            }
        },
        TermKindV::Call { callee, arg } => {
            let tf = type_of_sp(tys, gk, *callee)->Ok_0;
            let ta = type_of_sp(tys, gk, *arg)->Ok_0;
            lemma_subst_preserves(tys, bctx, g, sv, *callee, v, tf);
            lemma_subst_preserves(tys, bctx, g, sv, *arg, v, ta);
        },
        _ => {},
    }
}

/// Type preservation (subject reduction): a reduction step does not
/// change a term's type.  The term must hold no foldable arithmetic
/// redex — folding `pred (succ (Var 0))` during beta-reduction's walk
/// skips the substitution and breaks the type, so `Call(Fun(x: Nat,
/// pred (succ (Var 0))), 0)` is a genuine counterexample without that
/// premise — and context and depth must stay far from the index
/// arithmetic's wrapping range.
pub proof fn lemma_preservation(
    tys: Seq<Ty>,
    g: Seq<Option<TyV>>,
    t: TermV,
    t2: TermV,
    ty: TyV,
)
    requires
        type_of_sp(tys, g, t) == Result::<TyV, LangError>::Ok(ty),
        eval1_sp(t) == Some(t2),
        fold_free(t),
        g.len() + 6 * fdepth(t) + 8 < 0x1000_0000,
    ensures
        type_of_sp(tys, g, t2) == Result::<TyV, LangError>::Ok(ty),
    decreases t,
{
    match t.kind {
        TermKindV::If { cond, then_branch, else_branch } => {
            let tc = type_of_sp(tys, g, *cond)->Ok_0;
            match cond.kind {
                TermKindV::True => {},
                TermKindV::False => {},
                _ => {
                    let c2 = eval1_sp(*cond)->Some_0;
                    lemma_preservation(tys, g, *cond, c2, tc);
                },
            }
        },
        TermKindV::Call { callee, arg } => {
            let tf = type_of_sp(tys, g, *callee)->Ok_0;
            let ta = type_of_sp(tys, g, *arg)->Ok_0;
            match callee.kind {
                TermKindV::Fun { name, ty: ann, term } => {
                    let from = crate::syntax::ty_interp(tys, ann as int);
                    let to = type_of_sp(tys, seq![Some(from)] + g, *term)->Ok_0;
                    assert(tf == TyV::Arrow(Box::new(from), Box::new(to)));
                    assert(ta == from);
                    assert(ty == to);
                    if is_val_sp(*arg) {
                        assert(fold_free(*callee));
                        assert(fold_free(*term));
                        assert(fold_free(*arg));
                        assert(fdepth(*callee) == 1 + fdepth(*term));
                        assert(fdepth(t) >= fdepth(*callee) && fdepth(t) >= fdepth(*arg));
                        assert(Seq::<Option<TyV>>::empty() + seq![Some(from)] + g =~= seq![
                            Some(from),
                        ] + g);
                        lemma_subst_preserves(
                            tys,
                            Seq::empty(),
                            g,
                            from,
                            *term,
                            *arg,
                            to,
                        );
                        assert(Seq::<Option<TyV>>::empty() + g =~= g);
                        assert(t2 == subst_top_sp(*term, *arg));
                    } else {
                        let a2 = eval1_sp(*arg)->Some_0;
                        lemma_preservation(tys, g, *arg, a2, ta);
                    }
                },
                _ => {
                    if is_val_sp(*callee) {
                        let a2 = eval1_sp(*arg)->Some_0;
                        lemma_preservation(tys, g, *arg, a2, ta);
                    } else {
                        let c2 = eval1_sp(*callee)->Some_0;
                        lemma_preservation(tys, g, *callee, c2, tf);
                    }
                },
            }
        },
        TermKindV::Succ(t1) => {
            let u = eval1_sp(*t1)->Some_0;
            lemma_preservation(tys, g, *t1, u, TyV::Nat);
        },
        TermKindV::Pred(t1) => {
            match t1.kind {
                TermKindV::Zero => {},
                TermKindV::Succ(m) => {
                    if is_numeric_sp(*m) {
                        assert(type_of_sp(tys, g, *m) == Result::<TyV, LangError>::Ok(TyV::Nat));
                    } else {
                        let u = eval1_sp(*t1)->Some_0;
                        lemma_preservation(tys, g, *t1, u, TyV::Nat);
                    }
                },
                _ => {
                    let u = eval1_sp(*t1)->Some_0;
                    lemma_preservation(tys, g, *t1, u, TyV::Nat);
                },
            }
        },
        TermKindV::IsZero(t1) => {
            match t1.kind {
                TermKindV::Zero => {},
                TermKindV::Succ(m) => {
                    if is_numeric_sp(*m) {
                    } else {
                        let u = eval1_sp(*t1)->Some_0;
                        lemma_preservation(tys, g, *t1, u, TyV::Nat);
                    }
                },
                _ => {
                    let u = eval1_sp(*t1)->Some_0;
                    lemma_preservation(tys, g, *t1, u, TyV::Nat);
                },
            }
        },
        _ => {},
    }
}

} // verus!
