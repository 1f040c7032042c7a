//! The boolean lambda calculus: `true`, `false`, the conditional, and
//! one-argument functions, with types as shared trees rather than table
//! handles.
//!
//! Variables are de Bruijn indices, as in [`crate::syntax`], and the
//! shift/substitution engine is the same walk without the arithmetic
//! folds — this fragment has no numerals to fold.  Index arithmetic
//! wraps modulo 2^32 and the binder-depth cutoff saturates at
//! `i32::MAX`, so the engine never fails.

use crate::err::{ErrorKind, LangError};
use crate::span::Span;
use crate::util::{bytes_eq, copy_bytes, push_all, push_lit};
use vstd::prelude::*;
use vstd::wrapping::u32_specs;

verus! {

/// A type of this fragment: `Bool` or a function type.  Equality is
/// structural.
#[derive(Debug, PartialEq)]
pub enum Ty {
    Bool,
    Arrow { from: Box<Ty>, to: Box<Ty> },
}

/// A structurally equal copy of `t`.
pub fn ty_dup(t: &Ty) -> (r: Ty)
    ensures
        r == *t,
    decreases t,
{
    match t {
        Ty::Bool => Ty::Bool,
        Ty::Arrow { from, to } => Ty::Arrow {
            from: Box::new(ty_dup(from)),
            to: Box::new(ty_dup(to)),
        },
    }
}

/// Whether `a` and `b` are structurally equal types.
pub fn ty_eq(a: &Ty, b: &Ty) -> (r: bool)
    ensures
        r == (*a == *b),
    decreases a,
{
    match (a, b) {
        (Ty::Bool, Ty::Bool) => true,
        (Ty::Arrow { from: f1, to: t1 }, Ty::Arrow { from: f2, to: t2 }) => {
            ty_eq(f1, f2) && ty_eq(t1, t2)
        },
        _ => false,
    }
}

/// A term of this fragment, tagged with the source range it came from.
#[derive(Debug, PartialEq)]
pub struct Term {
    pub kind: TermKind,
    pub span: Span,
}

/// The shape of a term.
#[derive(Debug, PartialEq)]
pub enum TermKind {
    True,
    False,
    If { cond: Box<Term>, then_branch: Box<Term>, else_branch: Box<Term> },
    Var { idx: u32, len: u32 },
    Fun { name: Vec<u8>, ty: Box<Ty>, term: Box<Term> },
    Call { callee: Box<Term>, arg: Box<Term> },
}

/// The mathematical model of a term: the same tree with the binder name
/// as a byte sequence.
pub struct TermV {
    pub kind: TermKindV,
    pub span: Span,
}

/// The model of [`TermKind`].
pub enum TermKindV {
    True,
    False,
    If { cond: Box<TermV>, then_branch: Box<TermV>, else_branch: Box<TermV> },
    Var { idx: u32, len: u32 },
    Fun { name: Seq<u8>, ty: Ty, term: Box<TermV> },
    Call { callee: Box<TermV>, arg: Box<TermV> },
}

/// The model of a term is the same tree, node for node.
pub open spec fn term_view(t: Term) -> TermV
    decreases t,
{
    TermV {
        kind: match t.kind {
            TermKind::True => TermKindV::True,
            TermKind::False => TermKindV::False,
            TermKind::If { cond, then_branch, else_branch } => TermKindV::If {
                cond: Box::new(term_view(*cond)),
                then_branch: Box::new(term_view(*then_branch)),
                else_branch: Box::new(term_view(*else_branch)),
            },
            TermKind::Var { idx, len } => TermKindV::Var { idx, len },
            TermKind::Fun { name, ty, term } => TermKindV::Fun {
                name: name@,
                ty: *ty,
                term: Box::new(term_view(*term)),
            },
            TermKind::Call { callee, arg } => TermKindV::Call {
                callee: Box::new(term_view(*callee)),
                arg: Box::new(term_view(*arg)),
            },
        },
        span: t.span,
    }
}

impl View for Term {
    type V = TermV;

    open spec fn view(&self) -> TermV {
        term_view(*self)
    }
}

/// Whether `t` is a value: a boolean literal or a function abstraction.
pub open spec fn is_val_sp(t: TermV) -> bool {
    t.kind is True || t.kind is False || t.kind is Fun
}

/// `x + d` modulo 2^32.
pub open spec fn wadd(x: u32, d: i32) -> u32 {
    u32_specs::wrapping_add_signed(x, d)
}

/// The next binder-depth cutoff: one more, saturating at `i32::MAX`.
pub open spec fn next_cut(c: u32) -> u32 {
    if c >= 0x7FFF_FFFFu32 {
        c
    } else {
        (c + 1) as u32
    }
}

/// Shift by `d` every variable that is free relative to cutoff `c`, and
/// every recorded context length.
pub open spec fn shift_above_sp(t: TermV, c: u32, d: i32) -> TermV
    decreases t,
{
    match t.kind {
        TermKindV::True | TermKindV::False => t,
        TermKindV::If { cond, then_branch, else_branch } => TermV {
            kind: TermKindV::If {
                cond: Box::new(shift_above_sp(*cond, c, d)),
                then_branch: Box::new(shift_above_sp(*then_branch, c, d)),
                else_branch: Box::new(shift_above_sp(*else_branch, c, d)),
            },
            span: t.span,
        },
        TermKindV::Var { idx, len } => TermV {
            kind: TermKindV::Var {
                idx: if idx >= c { wadd(idx, d) } else { idx },
                len: wadd(len, d),
            },
            span: t.span,
        },
        TermKindV::Fun { name, ty, term } => TermV {
            kind: TermKindV::Fun {
                name,
                ty,
                term: Box::new(shift_above_sp(*term, next_cut(c), d)),
            },
            span: t.span,
        },
        TermKindV::Call { callee, arg } => TermV {
            kind: TermKindV::Call {
                callee: Box::new(shift_above_sp(*callee, c, d)),
                arg: Box::new(shift_above_sp(*arg, c, d)),
            },
            span: t.span,
        },
    }
}

/// Shift every free variable of `t` by `d`.
pub open spec fn shift_sp(t: TermV, d: i32) -> TermV {
    shift_above_sp(t, 0, d)
}

/// Replace, at walk depth `c`, every `Var` whose index equals `j + c`
/// by `s` shifted up by the depth at the point of replacement.
pub open spec fn subst_sp(t: TermV, j: u32, s: TermV, c: u32) -> TermV
    decreases t,
{
    match t.kind {
        TermKindV::True | TermKindV::False => t,
        TermKindV::If { cond, then_branch, else_branch } => TermV {
            kind: TermKindV::If {
                cond: Box::new(subst_sp(*cond, j, s, c)),
                then_branch: Box::new(subst_sp(*then_branch, j, s, c)),
                else_branch: Box::new(subst_sp(*else_branch, j, s, c)),
            },
            span: t.span,
        },
        TermKindV::Var { idx, len } => if idx == j + c {
            shift_above_sp(s, 0, c as i32)
        } else {
            TermV { kind: TermKindV::Var { idx, len }, span: t.span }
        },
        TermKindV::Fun { name, ty, term } => TermV {
            kind: TermKindV::Fun {
                name,
                ty,
                term: Box::new(subst_sp(*term, j, s, next_cut(c))),
            },
            span: t.span,
        },
        TermKindV::Call { callee, arg } => TermV {
            kind: TermKindV::Call {
                callee: Box::new(subst_sp(*callee, j, s, c)),
                arg: Box::new(subst_sp(*arg, j, s, c)),
            },
            span: t.span,
        },
    }
}

/// Beta-reduction's substitution: shift `s` up by one, substitute it for
/// index 0 in `t`, then shift the result down by one.
pub open spec fn subst_top_sp(t: TermV, s: TermV) -> TermV {
    shift_sp(subst_sp(t, 0, shift_sp(s, 1i32), 0), -1i32)
}

/// One small-step call-by-value reduction, or `None` when `t` is a value
/// or is stuck.
pub open spec fn eval1_sp(t: TermV) -> Option<TermV>
    decreases t,
{
    match t.kind {
        TermKindV::If { cond, then_branch, else_branch } => match cond.kind {
            TermKindV::True => Some(*then_branch),
            TermKindV::False => Some(*else_branch),
            _ => match eval1_sp(*cond) {
                Some(c2) => Some(
                    TermV {
                        kind: TermKindV::If {
                            cond: Box::new(c2),
                            then_branch,
                            else_branch,
                        },
                        span: t.span,
                    },
                ),
                None => None,
            },
        },
        TermKindV::Call { callee, arg } => match callee.kind {
            TermKindV::Fun { name, ty, term } => if is_val_sp(*arg) {
                Some(subst_top_sp(*term, *arg))
            } else {
                match eval1_sp(*arg) {
                    Some(a2) => Some(
                        TermV {
                            kind: TermKindV::Call { callee, arg: Box::new(a2) },
                            span: t.span,
                        },
                    ),
                    None => None,
                }
            },
            _ => if is_val_sp(*callee) {
                match eval1_sp(*arg) {
                    Some(a2) => Some(
                        TermV {
                            kind: TermKindV::Call { callee, arg: Box::new(a2) },
                            span: t.span,
                        },
                    ),
                    None => None,
                }
            } else {
                match eval1_sp(*callee) {
                    Some(c2) => Some(
                        TermV {
                            kind: TermKindV::Call { callee: Box::new(c2), arg },
                            span: t.span,
                        },
                    ),
                    None => None,
                }
            },
        },
        _ => None,
    }
}

/// `t` reaches `r` in exactly `n` reduction steps.
pub open spec fn steps_n(t: TermV, r: TermV, n: nat) -> bool
    decreases n,
{
    if n == 0 {
        t == r
    } else {
        match eval1_sp(t) {
            Some(u) => steps_n(u, r, (n - 1) as nat),
            None => false,
        }
    }
}

/// `t` has no applicable reduction rule.
pub open spec fn normal_sp(t: TermV) -> bool {
    eval1_sp(t) is None
}

/// What [`Term::eval`] returns for `t`: either the normal form of `t`,
/// or — only when `t` needs more than `u64::MAX` reduction steps — the
/// term after that many steps.
pub open spec fn eval_result(t: TermV, r: TermV) -> bool {
    exists|n: nat| steps_n(t, r, n) && (normal_sp(r) || n == u64::MAX)
}

impl Term {
    /// A term with the given shape and a placeholder span.
    pub fn new(kind: TermKind) -> (t: Term)
        ensures
            t.kind == kind,
            t.span == (Span { lo: 0, hi: 0, line: 0 }),
    {
        Term { kind, span: Span::dummy() }
    }

    /// A term with the given shape and span.
    pub fn with_span(kind: TermKind, span: Span) -> (t: Term)
        ensures
            t.kind == kind,
            t.span == span,
    {
        Term { kind, span }
    }

    /// A structurally equal copy of this term.
    pub fn dup(&self) -> (r: Term)
        ensures
            r@ == self@,
        decreases self,
    {
        let kind = match &self.kind {
            TermKind::True => TermKind::True,
            TermKind::False => TermKind::False,
            TermKind::If { cond, then_branch, else_branch } => TermKind::If {
                cond: Box::new(cond.dup()),
                then_branch: Box::new(then_branch.dup()),
                else_branch: Box::new(else_branch.dup()),
            },
            TermKind::Var { idx, len } => TermKind::Var { idx: *idx, len: *len },
            TermKind::Fun { name, ty, term } => TermKind::Fun {
                name: copy_bytes(name),
                ty: Box::new(ty_dup(ty)),
                term: Box::new(term.dup()),
            },
            TermKind::Call { callee, arg } => TermKind::Call {
                callee: Box::new(callee.dup()),
                arg: Box::new(arg.dup()),
            },
        };
        Term { kind, span: self.span }
    }

    /// Whether this term is a value: a boolean literal or a function
    /// abstraction.
    pub fn is_val(&self, _ctx: &Context) -> (r: bool)
        ensures
            r == is_val_sp(self@),
    {
        match &self.kind {
            TermKind::True | TermKind::False | TermKind::Fun { .. } => true,
            _ => false,
        }
    }

    /// Apply one reduction rule, or report that none applies.
    fn eval_1(&self, ctx: &mut Context) -> (r: Option<Term>)
        ensures
            final(ctx)@ == old(ctx)@,
            match r {
                Some(u) => eval1_sp(self@) == Some(u@),
                None => eval1_sp(self@) is None,
            },
        decreases self,
    {
        match &self.kind {
            TermKind::If { cond, then_branch, else_branch } => match &cond.kind {
                TermKind::True => {
                    proof {
                        assert(cond@.kind is True);
                    }
                    Some(then_branch.dup())
                },
                TermKind::False => {
                    proof {
                        assert(cond@.kind is False);
                    }
                    Some(else_branch.dup())
                },
                _ => match cond.eval_1(ctx) {
                    Some(c2) => Some(
                        Term {
                            kind: TermKind::If {
                                cond: Box::new(c2),
                                then_branch: Box::new(then_branch.dup()),
                                else_branch: Box::new(else_branch.dup()),
                            },
                            span: self.span,
                        },
                    ),
                    None => None,
                },
            },
            TermKind::Call { callee, arg } => match &callee.kind {
                TermKind::Fun { name: fun_name, ty: fun_ty, term: body } => if arg.is_val(ctx) {
                    proof {
                        assert(callee@.kind == TermKindV::Fun {
                            name: fun_name@,
                            ty: **fun_ty,
                            term: Box::new(body@),
                        });
                    }
                    Some(body.subst_top(arg))
                } else {
                    proof {
                        assert(callee@.kind is Fun);
                    }
                    match arg.eval_1(ctx) {
                        Some(a2) => Some(
                            Term {
                                kind: TermKind::Call {
                                    callee: Box::new(callee.dup()),
                                    arg: Box::new(a2),
                                },
                                span: self.span,
                            },
                        ),
                        None => None,
                    }
                },
                _ => if callee.is_val(ctx) {
                    match arg.eval_1(ctx) {
                        Some(a2) => Some(
                            Term {
                                kind: TermKind::Call {
                                    callee: Box::new(callee.dup()),
                                    arg: Box::new(a2),
                                },
                                span: self.span,
                            },
                        ),
                        None => None,
                    }
                } else {
                    match callee.eval_1(ctx) {
                        Some(c2) => Some(
                            Term {
                                kind: TermKind::Call {
                                    callee: Box::new(c2),
                                    arg: Box::new(arg.dup()),
                                },
                                span: self.span,
                            },
                        ),
                        None => None,
                    }
                },
            },
            _ => None,
        }
    }

    /// Reduce until no rule applies, returning the normal form.  A term
    /// that is already normal — a value or a stuck term — comes back
    /// structurally unchanged.  A reduction sequence longer than
    /// `u64::MAX` steps — which no real machine completes — is cut off
    /// there.
    pub fn eval(&self, ctx: &mut Context) -> (r: Term)
        ensures
            final(ctx)@ == old(ctx)@,
            eval_result(self@, r@),
    {
        let mut cur = self.dup();
        let mut fuel: u64 = u64::MAX;
        let ghost mut n: nat = 0;
        loop
            invariant
                steps_n(self@, cur@, n),
                n + fuel == u64::MAX,
                ctx@ == old(ctx)@,
            decreases fuel,
        {
            if fuel == 0 {
                proof {
                    assert(steps_n(self@, cur@, n) && (normal_sp(cur@) || n == u64::MAX));
                }
                return cur;
            }
            match cur.eval_1(ctx) {
                Some(next) => {
                    proof {
                        lemma_steps_snoc(self@, cur@, n, next@);
                        n = n + 1;
                    }
                    fuel = fuel - 1;
                    cur = next;
                },
                None => {
                    proof {
                        assert(steps_n(self@, cur@, n) && (normal_sp(cur@) || n == u64::MAX));
                    }
                    return cur;
                },
            }
        }
    }

    /// Beta-reduction's substitution: shift `subst_term` up by one for
    /// the binder it crosses, substitute it for index 0 in this term,
    /// then shift the result down by one to erase the consumed binder.
    pub fn subst_top(&self, subst_term: &Term) -> (r: Term)
        ensures
            r@ == subst_top_sp(self@, subst_term@),
    {
        let s1 = subst_term.shift(1);
        let t1 = self.subst(0, &s1);
        t1.shift(-1)
    }

    /// Replace every variable of this term denoting index `term_idx` by
    /// `subst_term`, shifted for the depth at each replacement point.
    pub fn subst(&self, term_idx: u32, subst_term: &Term) -> (r: Term)
        ensures
            r@ == subst_sp(self@, term_idx, subst_term@, 0),
    {
        self.subst_walk(term_idx, subst_term, 0)
    }

    /// The walk behind [`Term::subst`], carrying the current binder
    /// depth.
    fn subst_walk(&self, term_idx: u32, subst_term: &Term, ctx: u32) -> (r: Term)
        requires
            ctx <= 0x7FFF_FFFFu32,
        ensures
            r@ == subst_sp(self@, term_idx, subst_term@, ctx),
        decreases self,
    {
        let kind = match &self.kind {
            TermKind::True => TermKind::True,
            TermKind::False => TermKind::False,
            TermKind::If { cond, then_branch, else_branch } => TermKind::If {
                cond: Box::new(cond.subst_walk(term_idx, subst_term, ctx)),
                then_branch: Box::new(then_branch.subst_walk(term_idx, subst_term, ctx)),
                else_branch: Box::new(else_branch.subst_walk(term_idx, subst_term, ctx)),
            },
            TermKind::Var { idx, len } => {
                if (*idx as u64) == (term_idx as u64) + (ctx as u64) {
                    return subst_term.shift_above(0, ctx as i32);
                }
                TermKind::Var { idx: *idx, len: *len }
            },
            TermKind::Fun { name, ty, term: body } => TermKind::Fun {
                name: copy_bytes(name),
                ty: Box::new(ty_dup(ty)),
                term: Box::new(
                    body.subst_walk(
                        term_idx,
                        subst_term,
                        if ctx >= 0x7FFF_FFFFu32 { ctx } else { ctx + 1 },
                    ),
                ),
            },
            TermKind::Call { callee, arg } => TermKind::Call {
                callee: Box::new(callee.subst_walk(term_idx, subst_term, ctx)),
                arg: Box::new(arg.subst_walk(term_idx, subst_term, ctx)),
            },
        };
        Term { kind, span: self.span }
    }

    /// Shift by `dist` every variable of this term that is free relative
    /// to the binder-depth cutoff `ctx`.
    pub fn shift_above(&self, ctx: u32, dist: i32) -> (r: Term)
        ensures
            r@ == shift_above_sp(self@, ctx, dist),
        decreases self,
    {
        let kind = match &self.kind {
            TermKind::True => TermKind::True,
            TermKind::False => TermKind::False,
            TermKind::If { cond, then_branch, else_branch } => TermKind::If {
                cond: Box::new(cond.shift_above(ctx, dist)),
                then_branch: Box::new(then_branch.shift_above(ctx, dist)),
                else_branch: Box::new(else_branch.shift_above(ctx, dist)),
            },
            TermKind::Var { idx, len } => TermKind::Var {
                idx: if *idx >= ctx { idx.wrapping_add_signed(dist) } else { *idx },
                len: len.wrapping_add_signed(dist),
            },
            TermKind::Fun { name, ty, term: body } => TermKind::Fun {
                name: copy_bytes(name),
                ty: Box::new(ty_dup(ty)),
                term: Box::new(
                    body.shift_above(if ctx >= 0x7FFF_FFFFu32 { ctx } else { ctx + 1 }, dist),
                ),
            },
            TermKind::Call { callee, arg } => TermKind::Call {
                callee: Box::new(callee.shift_above(ctx, dist)),
                arg: Box::new(arg.shift_above(ctx, dist)),
            },
        };
        Term { kind, span: self.span }
    }

    /// Shift every free variable of this term by `dist`.
    pub fn shift(&self, dist: i32) -> (r: Term)
        ensures
            r@ == shift_sp(self@, dist),
    {
        self.shift_above(0, dist)
    }
}

/// Reaching `mid` in `n` steps and stepping once more reaches the result
/// of that step in `n + 1` steps.
proof fn lemma_steps_snoc(t: TermV, mid: TermV, n: nat, next: TermV)
    requires
        steps_n(t, mid, n),
        eval1_sp(mid) == Some(next),
    ensures
        steps_n(t, next, n + 1),
    decreases n,
{
    if n == 0 {
        assert(steps_n(next, next, 0));
        assert(steps_n(t, next, 1));
    } else {
        lemma_steps_snoc(eval1_sp(t)->Some_0, mid, (n - 1) as nat, next);
        assert(steps_n(t, next, n + 1));
    }
}

/// `t` reaches normal form `r`.
pub open spec fn evals_to(t: TermV, r: TermV) -> bool {
    exists|n: nat| steps_n(t, r, n) && normal_sp(r)
}

/// A term with no applicable rule evaluates to itself and to nothing
/// else.
pub proof fn lemma_normal_form_fixed(t: TermV)
    requires
        normal_sp(t),
    ensures
        evals_to(t, t),
        forall|r: TermV| evals_to(t, r) ==> r == t,
{
    assert(steps_n(t, t, 0) && normal_sp(t));
    assert forall|r: TermV| evals_to(t, r) implies r == t by {
        let n = choose|n: nat| steps_n(t, r, n) && normal_sp(r);
        if n != 0 {
            assert(eval1_sp(t) is Some);
        }
    }
}

proof fn lemma_steps_confluent(t: TermV, r1: TermV, n1: nat, r2: TermV, n2: nat)
    requires
        steps_n(t, r1, n1),
        normal_sp(r1),
        steps_n(t, r2, n2),
        normal_sp(r2),
    ensures
        r1 == r2,
    decreases n1,
{
    if n1 == 0 {
        if n2 != 0 {
            assert(eval1_sp(t) is Some);
        }
    } else {
        if n2 == 0 {
            assert(eval1_sp(t) is Some);
        } else {
            lemma_steps_confluent(
                eval1_sp(t)->Some_0,
                r1,
                (n1 - 1) as nat,
                r2,
                (n2 - 1) as nat,
            );
        }
    }
}

/// Reduction is deterministic, so normal forms are unique.
pub proof fn lemma_eval_deterministic(t: TermV, r1: TermV, r2: TermV)
    requires
        evals_to(t, r1),
        evals_to(t, r2),
    ensures
        r1 == r2,
{
    let n1 = choose|n: nat| steps_n(t, r1, n) && normal_sp(r1);
    let n2 = choose|n: nat| steps_n(t, r2, n) && normal_sp(r2);
    lemma_steps_confluent(t, r1, n1, r2, n2);
}

/// What a context slot binds: a bare display name, or a variable carrying
/// its declared type.
#[derive(Debug)]
pub enum Binding {
    Name,
    Variable(Ty),
}

/// A copy of `b`, type included.
fn binding_dup(b: &Binding) -> (r: Binding)
    ensures
        r == *b,
{
    match b {
        Binding::Name => Binding::Name,
        Binding::Variable(ty) => Binding::Variable(ty_dup(ty)),
    }
}

/// The naming context: one entry per binder in scope, appended at the
/// innermost end, so the de Bruijn index `i` addresses the entry at
/// position `len - 1 - i`.
pub struct Context {
    list: Vec<(Vec<u8>, Binding)>,
}

impl View for Context {
    type V = Seq<(Seq<u8>, Binding)>;

    closed spec fn view(&self) -> Seq<(Seq<u8>, Binding)> {
        self.list@.map(|i: int, e: (Vec<u8>, Binding)| (e.0@, e.1))
    }
}

/// The entry the de Bruijn index `idx` addresses in `ctx`.
pub open spec fn ctx_entry(ctx: Seq<(Seq<u8>, Binding)>, idx: int) -> (Seq<u8>, Binding) {
    ctx[ctx.len() - 1 - idx]
}

/// Whether some entry of `ctx` has the display name `name`.
pub open spec fn name_bound_sp(ctx: Seq<(Seq<u8>, Binding)>, name: Seq<u8>) -> bool {
    exists|i: int| 0 <= i < ctx.len() && ctx[i].0 == name
}

/// `name` with `k` apostrophes appended.
pub open spec fn apos_ext(name: Seq<u8>, k: nat) -> Seq<u8> {
    name + Seq::new(k, |i: int| 39u8)
}

impl Default for Context {
    /// The empty context.
    fn default() -> (c: Context)
        ensures
            c@ == Seq::<(Seq<u8>, Binding)>::empty(),
    {
        let c = Context { list: Vec::new() };
        proof {
            assert(c@ =~= Seq::<(Seq<u8>, Binding)>::empty());
        }
        c
    }
}

impl Context {
    /// How many binders are in scope.
    pub fn len(&self) -> (n: usize)
        ensures
            n == self@.len(),
    {
        self.list.len()
    }

    /// The display name the de Bruijn index `index` addresses.
    pub fn index_to_name(&self, index: usize) -> (r: Vec<u8>)
        requires
            index < self@.len(),
        ensures
            r@ == ctx_entry(self@, index as int).0,
    {
        let i = self.list.len() - 1 - index;
        copy_bytes(&self.list[i].0)
    }

    /// Append `name` to the context, adding apostrophes until it clashes
    /// with no name already in scope, and return the chosen name.
    pub fn pick_fresh_name(&mut self, name: &Vec<u8>) -> (r: Vec<u8>)
        ensures
            exists|k: nat|
                {
                    &&& r@ == apos_ext(name@, k)
                    &&& !name_bound_sp(old(self)@, r@)
                    &&& forall|j: nat| j < k ==> name_bound_sp(old(self)@, apos_ext(name@, j))
                    &&& final(self)@ == old(self)@.push((r@, Binding::Name))
                },
    {
        let mut fresh = copy_bytes(name);
        let l0 = fresh.len();
        proof {
            assert(fresh@.len() == l0);
        }
        let ghost mut k: nat = 0;
        while self.is_name_bound(&fresh)
            invariant
                fresh@ == apos_ext(name@, k),
                forall|j: nat| j < k ==> name_bound_sp(old(self)@, apos_ext(name@, j)),
                *self == *old(self),
                fresh@.len() <= usize::MAX,
            decreases usize::MAX - fresh@.len(),
        {
            fresh.push(39u8);
            let l1 = fresh.len();
            proof {
                assert(fresh@.len() == l1);
                k = k + 1;
                assert(fresh@ =~= apos_ext(name@, k));
            }
        }
        let chosen = copy_bytes(&fresh);
        let ghost before_push = self@;
        self.list.push((fresh, Binding::Name));
        proof {
            assert(before_push == old(self)@);
            assert(self.list@.last().0@ == chosen@);
            assert(self@ =~= old(self)@.push((chosen@, Binding::Name)));
            assert({
                &&& chosen@ == apos_ext(name@, k)
                &&& !name_bound_sp(old(self)@, chosen@)
                &&& forall|j: nat| j < k ==> name_bound_sp(old(self)@, apos_ext(name@, j))
                &&& final(self)@ == old(self)@.push((chosen@, Binding::Name))
            });
        }
        chosen
    }

    /// Whether `name` is already the display name of some binder in
    /// scope.
    pub fn is_name_bound(&self, name: &Vec<u8>) -> (r: bool)
        ensures
            r == name_bound_sp(self@, name@),
    {
        let mut i: usize = 0;
        while i < self.list.len()
            invariant
                i <= self@.len(),
                forall|j: int| 0 <= j < i ==> self@[j].0 != name@,
            decreases self@.len() - i,
        {
            proof {
                assert(self@[i as int] == (self.list@[i as int].0@, self.list@[i as int].1));
            }
            if bytes_eq(&self.list[i].0, name) {
                proof {
                    assert(self@[i as int].0 == name@);
                }
                return true;
            }
            i = i + 1;
        }
        proof {
            assert(!name_bound_sp(self@, name@));
        }
        false
    }

    /// A context one entry longer, leaving this one untouched; siblings
    /// of a binder therefore never see each other's bindings.
    pub fn add_binding(&self, name: &Vec<u8>, binding: Binding) -> (r: Context)
        ensures
            r@ == self@.push((name@, binding)),
    {
        let mut list: Vec<(Vec<u8>, Binding)> = Vec::new();
        let mut i: usize = 0;
        while i < self.list.len()
            invariant
                i <= self.list.len(),
                list@.len() == i,
                forall|j: int|
                    0 <= j < i ==> (#[trigger] list@[j]).0@ == self.list@[j].0@ && list@[j].1
                        == self.list@[j].1,
            decreases self.list.len() - i,
        {
            list.push((copy_bytes(&self.list[i].0), binding_dup(&self.list[i].1)));
            i = i + 1;
        }
        list.push((copy_bytes(name), binding));
        let r = Context { list };
        proof {
            assert forall|j: int| 0 <= j < r@.len() implies r@[j] == self@.push(
                (name@, binding),
            )[j] by {
                assert(r@[j] == (r.list@[j].0@, r.list@[j].1));
                if j < self.list@.len() {
                    assert(self@[j] == (self.list@[j].0@, self.list@[j].1));
                }
            }
            assert(r@ =~= self@.push((name@, binding)));
        }
        r
    }

    /// The type the de Bruijn index `index` addresses, or
    /// `UnboundOrWrongBinding` when the index is out of range or the slot
    /// binds a bare name.
    pub fn get_ty(&self, span: Span, index: usize) -> (r: Result<Ty, LangError>)
        ensures
            r == ctx_get_ty_sp(self@, span, index as int),
    {
        if index >= self.list.len() {
            return Result::Err(LangError { kind: ErrorKind::UnboundOrWrongBinding, span });
        }
        match self.get_binding(index) {
            Binding::Variable(ty) => Result::Ok(ty_dup(ty)),
            Binding::Name => Result::Err(
                LangError { kind: ErrorKind::UnboundOrWrongBinding, span },
            ),
        }
    }

    /// What the de Bruijn index `index` is bound to.
    pub fn get_binding(&self, index: usize) -> (r: &Binding)
        requires
            index < self@.len(),
        ensures
            *r == ctx_entry(self@, index as int).1,
    {
        let i = self.list.len() - 1 - index;
        &self.list[i].1
    }
}

/// What [`Context::get_ty`] returns: the type at the index, or the
/// `UnboundOrWrongBinding` error at `span`.
pub open spec fn ctx_get_ty_sp(ctx: Seq<(Seq<u8>, Binding)>, span: Span, index: int) -> Result<
    Ty,
    LangError,
> {
    if 0 <= index < ctx.len() && ctx_entry(ctx, index).1 is Variable {
        Result::Ok(ctx_entry(ctx, index).1->Variable_0)
    } else {
        Result::Err(LangError { kind: ErrorKind::UnboundOrWrongBinding, span })
    }
}

/// The typing context a naming context denotes, read in de Bruijn order.
pub open spec fn ctx_interp(ctx: Seq<(Seq<u8>, Binding)>) -> Seq<Option<Ty>> {
    Seq::new(
        ctx.len(),
        |i: int|
            match ctx_entry(ctx, i).1 {
                Binding::Name => None,
                Binding::Variable(ty) => Some(ty),
            },
    )
}

/// The type of `t` under typing context `g`, or the first error the
/// syntax-directed rules meet.
pub open spec fn type_of_sp(g: Seq<Option<Ty>>, t: TermV) -> Result<Ty, LangError>
    decreases t,
{
    match t.kind {
        TermKindV::True | TermKindV::False => Result::Ok(Ty::Bool),
        TermKindV::If { cond, then_branch, else_branch } => match type_of_sp(g, *cond) {
            Result::Ok(tc) => if tc == Ty::Bool {
                match type_of_sp(g, *then_branch) {
                    Result::Ok(t1) => match type_of_sp(g, *else_branch) {
                        Result::Ok(t2) => if t1 == t2 {
                            Result::Ok(t1)
                        } else {
                            Result::Err(
                                LangError { kind: ErrorKind::BranchMismatch, span: t.span },
                            )
                        },
                        Result::Err(e) => Result::Err(e),
                    },
                    Result::Err(e) => Result::Err(e),
                }
            } else {
                Result::Err(LangError { kind: ErrorKind::GuardNotBool, span: cond.span })
            },
            Result::Err(e) => Result::Err(e),
        },
        TermKindV::Var { idx, len } => if 0 <= idx < g.len() {
            match g[idx as int] {
                Some(ty) => Result::Ok(ty),
                None => Result::Err(
                    LangError { kind: ErrorKind::UnboundOrWrongBinding, span: t.span },
                ),
            }
        } else {
            Result::Err(LangError { kind: ErrorKind::UnboundOrWrongBinding, span: t.span })
        },
        TermKindV::Fun { name, ty, term } => match type_of_sp(seq![Some(ty)] + g, *term) {
            Result::Ok(to) => Result::Ok(Ty::Arrow { from: Box::new(ty), to: Box::new(to) }),
            Result::Err(e) => Result::Err(e),
        },
        TermKindV::Call { callee, arg } => match type_of_sp(g, *callee) {
            Result::Ok(tc) => match type_of_sp(g, *arg) {
                Result::Ok(ta) => match tc {
                    Ty::Arrow { from, to } => if *from == ta {
                        Result::Ok(*to)
                    } else {
                        Result::Err(
                            LangError { kind: ErrorKind::ArgTypeMismatch, span: t.span },
                        )
                    },
                    _ => Result::Err(LangError { kind: ErrorKind::NotAFunction, span: t.span }),
                },
                Result::Err(e) => Result::Err(e),
            },
            Result::Err(e) => Result::Err(e),
        },
    }
}

impl Term {
    /// The type of this term under `ctx`, following the syntax-directed
    /// rules with structural type equality; or the first error the rules
    /// meet.
    pub fn type_of(&self, ctx: &Context) -> (r: Result<Ty, LangError>)
        ensures
            r == type_of_sp(ctx_interp(ctx@), self@),
        decreases self,
    {
        let ghost g = ctx_interp(ctx@);
        match &self.kind {
            TermKind::True => Result::Ok(Ty::Bool),
            TermKind::False => Result::Ok(Ty::Bool),
            TermKind::If { cond, then_branch, else_branch } => {
                let tc = match cond.type_of(ctx) {
                    Result::Ok(ty) => ty,
                    Result::Err(e) => {
                        return Result::Err(e);
                    },
                };
                if ty_eq(&tc, &Ty::Bool) {
                    let ty1 = match then_branch.type_of(ctx) {
                        Result::Ok(ty) => ty,
                        Result::Err(e) => {
                            return Result::Err(e);
                        },
                    };
                    let ty2 = match else_branch.type_of(ctx) {
                        Result::Ok(ty) => ty,
                        Result::Err(e) => {
                            return Result::Err(e);
                        },
                    };
                    if ty_eq(&ty1, &ty2) {
                        Result::Ok(ty1)
                    } else {
                        Result::Err(
                            LangError { kind: ErrorKind::BranchMismatch, span: self.span },
                        )
                    }
                } else {
                    Result::Err(LangError { kind: ErrorKind::GuardNotBool, span: cond.span })
                }
            },
            TermKind::Var { idx, len: _ } => {
                let r = ctx.get_ty(self.span, *idx as usize);
                proof {
                    if (*idx as int) < ctx@.len() {
                        assert(g[*idx as int] == (match ctx_entry(ctx@, *idx as int).1 {
                            Binding::Name => None,
                            Binding::Variable(ty) => Some(ty),
                        }));
                    }
                }
                r
            },
            TermKind::Fun { name, ty, term: body } => {
                let ctx2 = ctx.add_binding(name, Binding::Variable(ty_dup(ty)));
                proof {
                    assert forall|i: int| 0 <= i < ctx2@.len() implies ctx_interp(ctx2@)[i]
                        == (seq![Some(**ty)] + g)[i] by {
                        if i == 0 {
                            assert(ctx_entry(ctx2@, 0) == (name@, Binding::Variable(**ty)));
                        } else {
                            assert(ctx_entry(ctx2@, i) == ctx_entry(ctx@, i - 1));
                        }
                    }
                    assert(ctx_interp(ctx2@) =~= seq![Some(**ty)] + g);
                }
                let to = match body.type_of(&ctx2) {
                    Result::Ok(t) => t,
                    Result::Err(e) => {
                        return Result::Err(e);
                    },
                };
                Result::Ok(Ty::Arrow { from: Box::new(ty_dup(ty)), to: Box::new(to) })
            },
            TermKind::Call { callee, arg } => {
                let tf = match callee.type_of(ctx) {
                    Result::Ok(ty) => ty,
                    Result::Err(e) => {
                        return Result::Err(e);
                    },
                };
                let ta = match arg.type_of(ctx) {
                    Result::Ok(ty) => ty,
                    Result::Err(e) => {
                        return Result::Err(e);
                    },
                };
                match tf {
                    Ty::Arrow { from, to } => {
                        if ty_eq(&from, &ta) {
                            Result::Ok(*to)
                        } else {
                            Result::Err(
                                LangError { kind: ErrorKind::ArgTypeMismatch, span: self.span },
                            )
                        }
                    },
                    _ => Result::Err(LangError { kind: ErrorKind::NotAFunction, span: self.span }),
                }
            },
        }
    }
}

/// `k` is the number of apostrophes [`Context::pick_fresh_name`] adds to
/// `name` under `ctx`: the least count making the name fresh.
pub open spec fn is_fresh_at(ctx: Seq<(Seq<u8>, Binding)>, name: Seq<u8>, k: nat) -> bool {
    &&& !name_bound_sp(ctx, apos_ext(name, k))
    &&& forall|j: nat| j < k ==> name_bound_sp(ctx, apos_ext(name, j))
}

/// The apostrophe count that freshens `name` under `ctx`.
pub open spec fn fresh_k(ctx: Seq<(Seq<u8>, Binding)>, name: Seq<u8>) -> nat {
    choose|k: nat| is_fresh_at(ctx, name, k)
}

/// At most one apostrophe count freshens a name.
proof fn lemma_fresh_unique(ctx: Seq<(Seq<u8>, Binding)>, name: Seq<u8>, k1: nat, k2: nat)
    requires
        is_fresh_at(ctx, name, k1),
        is_fresh_at(ctx, name, k2),
    ensures
        k1 == k2,
{
    if k1 < k2 {
        assert(name_bound_sp(ctx, apos_ext(name, k1)));
    }
    if k2 < k1 {
        assert(name_bound_sp(ctx, apos_ext(name, k2)));
    }
}

/// The bytes of the keyword `true`.
pub open spec fn lit_true() -> Seq<u8> {
    seq!['t' as u8, 'r' as u8, 'u' as u8, 'e' as u8]
}

/// The bytes of the keyword `false`.
pub open spec fn lit_false() -> Seq<u8> {
    seq!['f' as u8, 'a' as u8, 'l' as u8, 's' as u8, 'e' as u8]
}

/// The bytes of `if `.
pub open spec fn lit_if() -> Seq<u8> {
    seq!['i' as u8, 'f' as u8, ' ' as u8]
}

/// The bytes of ` { `.
pub open spec fn lit_open_block() -> Seq<u8> {
    seq![' ' as u8, '{' as u8, ' ' as u8]
}

/// The bytes of ` } else { `.
pub open spec fn lit_else_block() -> Seq<u8> {
    seq![
        ' ' as u8,
        '}' as u8,
        ' ' as u8,
        'e' as u8,
        'l' as u8,
        's' as u8,
        'e' as u8,
        ' ' as u8,
        '{' as u8,
        ' ' as u8,
    ]
}

/// The bytes of ` }`.
pub open spec fn lit_close_block() -> Seq<u8> {
    seq![' ' as u8, '}' as u8]
}

/// The bytes of `(lambda `.
pub open spec fn lit_lambda() -> Seq<u8> {
    seq!['(' as u8, 'l' as u8, 'a' as u8, 'm' as u8, 'b' as u8, 'd' as u8, 'a' as u8, ' ' as u8]
}

/// The bytes of `. `.
pub open spec fn lit_dot() -> Seq<u8> {
    seq!['.' as u8, ' ' as u8]
}

/// The bytes of `[bad index]`.
pub open spec fn lit_bad_index() -> Seq<u8> {
    seq![
        '[' as u8,
        'b' as u8,
        'a' as u8,
        'd' as u8,
        ' ' as u8,
        'i' as u8,
        'n' as u8,
        'd' as u8,
        'e' as u8,
        'x' as u8,
        ']' as u8,
    ]
}

/// What printing `t` under `ctx` emits, and the context afterwards: the
/// printer appends one entry per binder it passes and does not remove
/// them, so siblings printed later see the names chosen earlier.
pub open spec fn print_sp(t: TermV, ctx: Seq<(Seq<u8>, Binding)>) -> (Seq<u8>, Seq<
    (Seq<u8>, Binding),
>)
    decreases t,
{
    match t.kind {
        TermKindV::True => (lit_true(), ctx),
        TermKindV::False => (lit_false(), ctx),
        TermKindV::If { cond, then_branch, else_branch } => {
            let (s1, c1) = print_sp(*cond, ctx);
            let (s2, c2) = print_sp(*then_branch, c1);
            let (s3, c3) = print_sp(*else_branch, c2);
            (lit_if() + s1 + lit_open_block() + s2 + lit_else_block() + s3 + lit_close_block(), c3)
        },
        TermKindV::Fun { name, ty, term } => {
            let fresh = apos_ext(name, fresh_k(ctx, name));
            let c1 = ctx.push((fresh, Binding::Name));
            let (s1, c2) = print_sp(*term, c1);
            (lit_lambda() + fresh + lit_dot() + s1 + seq![')' as u8], c2)
        },
        TermKindV::Call { callee, arg } => {
            let (s1, c1) = print_sp(*callee, ctx);
            let (s2, c2) = print_sp(*arg, c1);
            (seq!['(' as u8] + s1 + seq![' ' as u8] + s2 + seq![')' as u8], c2)
        },
        TermKindV::Var { idx, len } => if ctx.len() == len && idx < len {
            (ctx_entry(ctx, idx as int).0, ctx)
        } else {
            (lit_bad_index(), ctx)
        },
    }
}

impl Term {
    /// Render this term onto the end of `buf` in surface syntax,
    /// recovering binder names through `ctx`: each binder passed appends
    /// a fresh name to `ctx`, and a variable whose recorded context
    /// length does not match `ctx` — or whose index is out of range —
    /// prints as `[bad index]` instead of failing.
    pub fn print(&self, ctx: &mut Context, buf: &mut Vec<u8>)
        ensures
            final(buf)@ == old(buf)@ + print_sp(self@, old(ctx)@).0,
            final(ctx)@ == print_sp(self@, old(ctx)@).1,
        decreases self,
    {
        match &self.kind {
            TermKind::True => {
                proof {
                    reveal_strlit("true");
                }
                push_lit(buf, "true");
                proof {
                    assert(Seq::new("true"@.len(), |i: int| "true"@[i] as u8) =~= lit_true());
                }
            },
            TermKind::False => {
                proof {
                    reveal_strlit("false");
                }
                push_lit(buf, "false");
                proof {
                    assert(Seq::new("false"@.len(), |i: int| "false"@[i] as u8) =~= lit_false());
                }
            },
            TermKind::If { cond, then_branch, else_branch } => {
                proof {
                    reveal_strlit("if ");
                    reveal_strlit(" { ");
                    reveal_strlit(" } else { ");
                    reveal_strlit(" }");
                }
                push_lit(buf, "if ");
                proof {
                    assert(Seq::new("if "@.len(), |i: int| "if "@[i] as u8) =~= lit_if());
                }
                cond.print(ctx, buf);
                push_lit(buf, " { ");
                proof {
                    assert(Seq::new(" { "@.len(), |i: int| " { "@[i] as u8) =~= lit_open_block());
                }
                then_branch.print(ctx, buf);
                push_lit(buf, " } else { ");
                proof {
                    assert(Seq::new(" } else { "@.len(), |i: int| " } else { "@[i] as u8)
                        =~= lit_else_block());
                }
                else_branch.print(ctx, buf);
                push_lit(buf, " }");
                proof {
                    assert(Seq::new(" }"@.len(), |i: int| " }"@[i] as u8) =~= lit_close_block());
                    assert(final(buf)@ =~= old(buf)@ + print_sp(self@, old(ctx)@).0);
                }
            },
            TermKind::Fun { name, ty: _, term: body } => {
                let ghost c0 = ctx@;
                let fresh = ctx.pick_fresh_name(name);
                proof {
                    let k0 = choose|k: nat|
                        {
                            &&& fresh@ == apos_ext(name@, k)
                            &&& !name_bound_sp(c0, fresh@)
                            &&& forall|j: nat| j < k ==> name_bound_sp(c0, apos_ext(name@, j))
                            &&& ctx@ == c0.push((fresh@, Binding::Name))
                        };
                    assert(is_fresh_at(c0, name@, k0));
                    assert(is_fresh_at(c0, name@, fresh_k(c0, name@)));
                    lemma_fresh_unique(c0, name@, k0, fresh_k(c0, name@));
                    reveal_strlit("(lambda ");
                    reveal_strlit(". ");
                    reveal_strlit(")");
                }
                push_lit(buf, "(lambda ");
                proof {
                    assert(Seq::new("(lambda "@.len(), |i: int| "(lambda "@[i] as u8)
                        =~= lit_lambda());
                }
                push_all(buf, fresh.as_slice());
                push_lit(buf, ". ");
                proof {
                    assert(Seq::new(". "@.len(), |i: int| ". "@[i] as u8) =~= lit_dot());
                }
                body.print(ctx, buf);
                push_lit(buf, ")");
                proof {
                    assert(Seq::new(")"@.len(), |i: int| ")"@[i] as u8) =~= seq![')' as u8]);
                    assert(final(buf)@ =~= old(buf)@ + print_sp(self@, old(ctx)@).0);
                }
            },
            TermKind::Call { callee, arg } => {
                proof {
                    reveal_strlit("(");
                    reveal_strlit(" ");
                    reveal_strlit(")");
                }
                push_lit(buf, "(");
                proof {
                    assert(Seq::new("("@.len(), |i: int| "("@[i] as u8) =~= seq!['(' as u8]);
                }
                callee.print(ctx, buf);
                push_lit(buf, " ");
                proof {
                    assert(Seq::new(" "@.len(), |i: int| " "@[i] as u8) =~= seq![' ' as u8]);
                }
                arg.print(ctx, buf);
                push_lit(buf, ")");
                proof {
                    assert(Seq::new(")"@.len(), |i: int| ")"@[i] as u8) =~= seq![')' as u8]);
                    assert(final(buf)@ =~= old(buf)@ + print_sp(self@, old(ctx)@).0);
                }
            },
            TermKind::Var { idx, len } => {
                if ctx.len() == (*len as usize) && (*idx as usize) < ctx.len() {
                    let nm = ctx.index_to_name(*idx as usize);
                    push_all(buf, nm.as_slice());
                } else {
                    proof {
                        reveal_strlit("[bad index]");
                    }
                    push_lit(buf, "[bad index]");
                    proof {
                        assert(Seq::new("[bad index]"@.len(), |i: int| "[bad index]"@[i] as u8)
                            =~= lit_bad_index());
                    }
                }
            },
        }
    }
}

} // verus!
