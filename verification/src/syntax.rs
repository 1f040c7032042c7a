//! The typed calculus: booleans, naturals and one-argument functions.
//!
//! Variables are de Bruijn indices: `Var { idx, .. }` counts binders
//! outward from its point of use, index 0 being the nearest enclosing
//! binder.  The `len` field records the binder depth at the node's
//! creation and is used only as a consistency check when printing.
//!
//! The shift/substitution engine renumbers free variables when a term
//! crosses a binder boundary.  While walking, it opportunistically folds
//! the arithmetic redexes `pred 0`, `pred (succ t)`, `iszero 0` and
//! `iszero (succ t)`; the fold is part of the observable behaviour of
//! shifting and substitution, not only of evaluation.
//!
//! Index arithmetic wraps modulo 2^32, and the walk's binder-depth cutoff
//! saturates at `i32::MAX`, so the engine never fails: an out-of-range
//! index simply receives whatever the arithmetic produces, to be caught
//! downstream when printing or type checking.

use crate::err::{ErrorKind, LangError};
use crate::span::Span;
use crate::util::{bytes_eq, copy_bytes, push_all, push_lit};
use vstd::prelude::*;
use vstd::wrapping::u32_specs;

verus! {

/// A handle into a [`TyContext`] table of type shapes.
pub type TypeId = usize;

/// A term of the typed calculus, tagged with the source range it came
/// from.  The span has no semantic role.
#[derive(Debug, PartialEq)]
pub struct Term {
    pub kind: TermKind,
    pub span: Span,
}

/// The shape of a term.
#[derive(Debug, PartialEq)]
pub enum TermKind {
    True,
    False,
    Zero,
    If { cond: Box<Term>, then_branch: Box<Term>, else_branch: Box<Term> },
    Succ(Box<Term>),
    Pred(Box<Term>),
    IsZero(Box<Term>),
    Var { idx: u32, len: u32 },
    Fun { name: Vec<u8>, ty: TypeId, term: Box<Term> },
    Call { callee: Box<Term>, arg: Box<Term> },
}

/// The mathematical model of a term: the same tree with the binder name
/// as a byte sequence.
pub struct TermV {
    pub kind: TermKindV,
    pub span: Span,
}

/// The model of [`TermKind`].
pub enum TermKindV {
    True,
    False,
    Zero,
    If { cond: Box<TermV>, then_branch: Box<TermV>, else_branch: Box<TermV> },
    Succ(Box<TermV>),
    Pred(Box<TermV>),
    IsZero(Box<TermV>),
    Var { idx: u32, len: u32 },
    Fun { name: Seq<u8>, ty: TypeId, term: Box<TermV> },
    Call { callee: Box<TermV>, arg: Box<TermV> },
}

/// The model of a term is the same tree, node for node.
pub open spec fn term_view(t: Term) -> TermV
    decreases t,
{
    TermV {
        kind: match t.kind {
            TermKind::True => TermKindV::True,
            TermKind::False => TermKindV::False,
            TermKind::Zero => TermKindV::Zero,
            TermKind::If { cond, then_branch, else_branch } => TermKindV::If {
                cond: Box::new(term_view(*cond)),
                then_branch: Box::new(term_view(*then_branch)),
                else_branch: Box::new(term_view(*else_branch)),
            },
            TermKind::Succ(t1) => TermKindV::Succ(Box::new(term_view(*t1))),
            TermKind::Pred(t1) => TermKindV::Pred(Box::new(term_view(*t1))),
            TermKind::IsZero(t1) => TermKindV::IsZero(Box::new(term_view(*t1))),
            TermKind::Var { idx, len } => TermKindV::Var { idx, len },
            TermKind::Fun { name, ty, term } => TermKindV::Fun {
                name: name@,
                ty,
                term: Box::new(term_view(*term)),
            },
            TermKind::Call { callee, arg } => TermKindV::Call {
                callee: Box::new(term_view(*callee)),
                arg: Box::new(term_view(*arg)),
            },
        },
        span: t.span,
    }
}

impl View for Term {
    type V = TermV;

    open spec fn view(&self) -> TermV {
        term_view(*self)
    }
}

/// Whether `t` is a numeral: `Zero` under zero or more `Succ`s.
pub open spec fn is_numeric_sp(t: TermV) -> bool
    decreases t,
{
    match t.kind {
        TermKindV::Zero => true,
        TermKindV::Succ(t1) => is_numeric_sp(*t1),
        _ => false,
    }
}

/// Whether `t` is a value: a boolean literal, a numeral, or a function
/// abstraction.  Values are the normal forms evaluation is meant to
/// reach.
pub open spec fn is_val_sp(t: TermV) -> bool {
    t.kind is True || t.kind is False || t.kind is Fun || is_numeric_sp(t)
}

/// `x + d` modulo 2^32, the arithmetic applied to variable indices and
/// recorded context lengths when a term is shifted.
pub open spec fn wadd(x: u32, d: i32) -> u32 {
    u32_specs::wrapping_add_signed(x, d)
}

/// The next binder-depth cutoff: one more, saturating at `i32::MAX`.
pub open spec fn next_cut(c: u32) -> u32 {
    if c >= 0x7FFF_FFFFu32 {
        c
    } else {
        (c + 1) as u32
    }
}

/// Shift by `d` every variable that is free relative to cutoff `c`:
/// a `Var` with `idx >= c` has its index moved by `d`, and every `Var`
/// has its recorded context length moved by `d`.  Arithmetic redexes met
/// on the way are folded (see the module documentation).
pub open spec fn shift_above_sp(t: TermV, c: u32, d: i32) -> TermV
    decreases t,
{
    match t.kind {
        TermKindV::True | TermKindV::False | TermKindV::Zero => t,
        TermKindV::If { cond, then_branch, else_branch } => TermV {
            kind: TermKindV::If {
                cond: Box::new(shift_above_sp(*cond, c, d)),
                then_branch: Box::new(shift_above_sp(*then_branch, c, d)),
                else_branch: Box::new(shift_above_sp(*else_branch, c, d)),
            },
            span: t.span,
        },
        TermKindV::Succ(t1) => TermV {
            kind: TermKindV::Succ(Box::new(shift_above_sp(*t1, c, d))),
            span: t.span,
        },
        TermKindV::Pred(t1) => match t1.kind {
            TermKindV::Zero => TermV { kind: TermKindV::Zero, span: t.span },
            TermKindV::Succ(t2) => *t2,
            _ => TermV {
                kind: TermKindV::Pred(Box::new(shift_above_sp(*t1, c, d))),
                span: t.span,
            },
        },
        TermKindV::IsZero(t1) => match t1.kind {
            TermKindV::Zero => TermV { kind: TermKindV::True, span: t.span },
            TermKindV::Succ(_) => TermV { kind: TermKindV::False, span: t.span },
            _ => TermV {
                kind: TermKindV::IsZero(Box::new(shift_above_sp(*t1, c, d))),
                span: t.span,
            },
        },
        TermKindV::Var { idx, len } => TermV {
            kind: TermKindV::Var {
                idx: if idx >= c { wadd(idx, d) } else { idx },
                len: wadd(len, d),
            },
            span: t.span,
        },
        TermKindV::Fun { name, ty, term } => TermV {
            kind: TermKindV::Fun {
                name,
                ty,
                term: Box::new(shift_above_sp(*term, next_cut(c), d)),
            },
            span: t.span,
        },
        TermKindV::Call { callee, arg } => TermV {
            kind: TermKindV::Call {
                callee: Box::new(shift_above_sp(*callee, c, d)),
                arg: Box::new(shift_above_sp(*arg, c, d)),
            },
            span: t.span,
        },
    }
}

/// Shift every free variable of `t` by `d`.
pub open spec fn shift_sp(t: TermV, d: i32) -> TermV {
    shift_above_sp(t, 0, d)
}

/// Replace, at walk depth `c`, every `Var` whose index equals `j + c`
/// by `s` shifted up by the depth at the point of replacement.  Other
/// variables are left as they are — their recorded context lengths
/// included — and arithmetic redexes met on the way are folded.
pub open spec fn subst_sp(t: TermV, j: u32, s: TermV, c: u32) -> TermV
    decreases t,
{
    match t.kind {
        TermKindV::True | TermKindV::False | TermKindV::Zero => t,
        TermKindV::If { cond, then_branch, else_branch } => TermV {
            kind: TermKindV::If {
                cond: Box::new(subst_sp(*cond, j, s, c)),
                then_branch: Box::new(subst_sp(*then_branch, j, s, c)),
                else_branch: Box::new(subst_sp(*else_branch, j, s, c)),
            },
            span: t.span,
        },
        TermKindV::Succ(t1) => TermV {
            kind: TermKindV::Succ(Box::new(subst_sp(*t1, j, s, c))),
            span: t.span,
        },
        TermKindV::Pred(t1) => match t1.kind {
            TermKindV::Zero => TermV { kind: TermKindV::Zero, span: t.span },
            TermKindV::Succ(t2) => *t2,
            _ => TermV {
                kind: TermKindV::Pred(Box::new(subst_sp(*t1, j, s, c))),
                span: t.span,
            },
        },
        TermKindV::IsZero(t1) => match t1.kind {
            TermKindV::Zero => TermV { kind: TermKindV::True, span: t.span },
            TermKindV::Succ(_) => TermV { kind: TermKindV::False, span: t.span },
            _ => TermV {
                kind: TermKindV::IsZero(Box::new(subst_sp(*t1, j, s, c))),
                span: t.span,
            },
        },
        TermKindV::Var { idx, len } => if idx == j + c {
            shift_above_sp(s, 0, c as i32)
        } else {
            TermV { kind: TermKindV::Var { idx, len }, span: t.span }
        },
        TermKindV::Fun { name, ty, term } => TermV {
            kind: TermKindV::Fun {
                name,
                ty,
                term: Box::new(subst_sp(*term, j, s, next_cut(c))),
            },
            span: t.span,
        },
        TermKindV::Call { callee, arg } => TermV {
            kind: TermKindV::Call {
                callee: Box::new(subst_sp(*callee, j, s, c)),
                arg: Box::new(subst_sp(*arg, j, s, c)),
            },
            span: t.span,
        },
    }
}

/// Beta-reduction's substitution: shift `s` up by one for the binder it
/// crosses, substitute it for index 0 in `t`, then shift the result down
/// by one to erase the consumed binder.
pub open spec fn subst_top_sp(t: TermV, s: TermV) -> TermV {
    shift_sp(subst_sp(t, 0, shift_sp(s, 1i32), 0), -1i32)
}

/// One small-step call-by-value reduction: `Some(u)` when a rule applies
/// to `t`, `None` when `t` is a value or is stuck.  The rules are tried
/// in a fixed order and at most one applies to any term, so reduction is
/// a function of the term.
pub open spec fn eval1_sp(t: TermV) -> Option<TermV>
    decreases t,
{
    match t.kind {
        TermKindV::If { cond, then_branch, else_branch } => match cond.kind {
            TermKindV::True => Some(*then_branch),
            TermKindV::False => Some(*else_branch),
            _ => match eval1_sp(*cond) {
                Some(c2) => Some(
                    TermV {
                        kind: TermKindV::If {
                            cond: Box::new(c2),
                            then_branch,
                            else_branch,
                        },
                        span: t.span,
                    },
                ),
                None => None,
            },
        },
        TermKindV::Call { callee, arg } => match callee.kind {
            TermKindV::Fun { name, ty, term } => if is_val_sp(*arg) {
                Some(subst_top_sp(*term, *arg))
            } else {
                match eval1_sp(*arg) {
                    Some(a2) => Some(
                        TermV {
                            kind: TermKindV::Call { callee, arg: Box::new(a2) },
                            span: t.span,
                        },
                    ),
                    None => None,
                }
            },
            _ => if is_val_sp(*callee) {
                match eval1_sp(*arg) {
                    Some(a2) => Some(
                        TermV {
                            kind: TermKindV::Call { callee, arg: Box::new(a2) },
                            span: t.span,
                        },
                    ),
                    None => None,
                }
            } else {
                match eval1_sp(*callee) {
                    Some(c2) => Some(
                        TermV {
                            kind: TermKindV::Call { callee: Box::new(c2), arg },
                            span: t.span,
                        },
                    ),
                    None => None,
                }
            },
        },
        TermKindV::Succ(t1) => match eval1_sp(*t1) {
            Some(u) => Some(TermV { kind: TermKindV::Succ(Box::new(u)), span: t.span }),
            None => None,
        },
        TermKindV::Pred(t1) => match t1.kind {
            TermKindV::Zero => Some(TermV { kind: TermKindV::Zero, span: t.span }),
            TermKindV::Succ(u) => if is_numeric_sp(*u) {
                Some(*u)
            } else {
                match eval1_sp(*t1) {
                    Some(v) => Some(
                        TermV { kind: TermKindV::Pred(Box::new(v)), span: t.span },
                    ),
                    None => None,
                }
            },
            _ => match eval1_sp(*t1) {
                Some(v) => Some(TermV { kind: TermKindV::Pred(Box::new(v)), span: t.span }),
                None => None,
            },
        },
        TermKindV::IsZero(t1) => match t1.kind {
            TermKindV::Zero => Some(TermV { kind: TermKindV::True, span: t.span }),
            TermKindV::Succ(u) => if is_numeric_sp(*u) {
                Some(TermV { kind: TermKindV::False, span: t.span })
            } else {
                match eval1_sp(*t1) {
                    Some(v) => Some(
                        TermV { kind: TermKindV::IsZero(Box::new(v)), span: t.span },
                    ),
                    None => None,
                }
            },
            _ => match eval1_sp(*t1) {
                Some(v) => Some(TermV { kind: TermKindV::IsZero(Box::new(v)), span: t.span }),
                None => None,
            },
        },
        _ => None,
    }
}

/// `t` reaches `r` in exactly `n` reduction steps.
pub open spec fn steps_n(t: TermV, r: TermV, n: nat) -> bool
    decreases n,
{
    if n == 0 {
        t == r
    } else {
        match eval1_sp(t) {
            Some(u) => steps_n(u, r, (n - 1) as nat),
            None => false,
        }
    }
}

/// `t` has no applicable reduction rule.
pub open spec fn normal_sp(t: TermV) -> bool {
    eval1_sp(t) is None
}

/// What [`Eval::eval`] returns for `t`: either the normal form of `t`,
/// or — only when `t` needs more than `u64::MAX` reduction steps — the
/// term after that many steps.
pub open spec fn eval_result(t: TermV, r: TermV) -> bool {
    exists|n: nat| steps_n(t, r, n) && (normal_sp(r) || n == u64::MAX)
}

impl Term {
    /// A term with the given shape and a placeholder span.
    pub fn new(kind: TermKind) -> (t: Term)
        ensures
            t.kind == kind,
            t.span == (Span { lo: 0, hi: 0, line: 0 }),
    {
        Term { kind, span: Span::dummy() }
    }

    /// A term with the given shape and span.
    pub fn with_span(kind: TermKind, span: Span) -> (t: Term)
        ensures
            t.kind == kind,
            t.span == span,
    {
        Term { kind, span }
    }

    /// A structurally equal copy of this term.
    pub fn dup(&self) -> (r: Term)
        ensures
            r@ == self@,
        decreases self,
    {
        let kind = match &self.kind {
            TermKind::True => TermKind::True,
            TermKind::False => TermKind::False,
            TermKind::Zero => TermKind::Zero,
            TermKind::If { cond, then_branch, else_branch } => TermKind::If {
                cond: Box::new(cond.dup()),
                then_branch: Box::new(then_branch.dup()),
                else_branch: Box::new(else_branch.dup()),
            },
            TermKind::Succ(t1) => TermKind::Succ(Box::new(t1.dup())),
            TermKind::Pred(t1) => TermKind::Pred(Box::new(t1.dup())),
            TermKind::IsZero(t1) => TermKind::IsZero(Box::new(t1.dup())),
            TermKind::Var { idx, len } => TermKind::Var { idx: *idx, len: *len },
            TermKind::Fun { name, ty, term } => TermKind::Fun {
                name: copy_bytes(name),
                ty: *ty,
                term: Box::new(term.dup()),
            },
            TermKind::Call { callee, arg } => TermKind::Call {
                callee: Box::new(callee.dup()),
                arg: Box::new(arg.dup()),
            },
        };
        Term { kind, span: self.span }
    }

    /// Whether this term is a numeral.
    pub fn is_numeric(&self) -> (r: bool)
        ensures
            r == is_numeric_sp(self@),
        decreases self,
    {
        match &self.kind {
            TermKind::Zero => true,
            TermKind::Succ(t1) => t1.is_numeric(),
            _ => false,
        }
    }

    /// Whether this term is a value: a boolean literal, a numeral, or a
    /// function abstraction.
    pub fn is_val(&self, _ctx: &Context) -> (r: bool)
        ensures
            r == is_val_sp(self@),
    {
        match &self.kind {
            TermKind::True | TermKind::False | TermKind::Fun { .. } => true,
            _ => self.is_numeric(),
        }
    }
}

/// The shift/substitution engine and the evaluator, type checker and
/// printer built on it.  Holds the source bytes the terms were parsed
/// from, for callers that want to relate spans back to text.
pub struct Eval {
    pub src: Vec<u8>,
}

impl Eval {
    /// An engine for terms parsed from the given source bytes.
    pub fn new(src: Vec<u8>) -> (e: Eval)
        ensures
            e.src@ == src@,
    {
        Eval { src }
    }

    /// Shift by `dist` every variable of `term` that is free relative to
    /// the binder-depth cutoff `ctx`.
    pub fn shift_above(&self, term: &Term, ctx: u32, dist: i32) -> (r: Term)
        ensures
            r@ == shift_above_sp(term@, ctx, dist),
        decreases term,
    {
        let kind = match &term.kind {
            TermKind::True => TermKind::True,
            TermKind::False => TermKind::False,
            TermKind::Zero => TermKind::Zero,
            TermKind::If { cond, then_branch, else_branch } => TermKind::If {
                cond: Box::new(self.shift_above(cond, ctx, dist)),
                then_branch: Box::new(self.shift_above(then_branch, ctx, dist)),
                else_branch: Box::new(self.shift_above(else_branch, ctx, dist)),
            },
            TermKind::Succ(t1) => TermKind::Succ(Box::new(self.shift_above(t1, ctx, dist))),
            TermKind::Pred(t1) => match &t1.kind {
                TermKind::Zero => {
                    proof {
                        assert(t1@.kind is Zero);
                    }
                    TermKind::Zero
                },
                TermKind::Succ(t2) => {
                    proof {
                        assert(t1@.kind == TermKindV::Succ(Box::new(t2@)));
                    }
                    return t2.dup();
                },
                _ => TermKind::Pred(Box::new(self.shift_above(t1, ctx, dist))),
            },
            TermKind::IsZero(t1) => match &t1.kind {
                TermKind::Zero => {
                    proof {
                        assert(t1@.kind is Zero);
                    }
                    TermKind::True
                },
                TermKind::Succ(t2) => {
                    proof {
                        assert(t1@.kind == TermKindV::Succ(Box::new(t2@)));
                    }
                    TermKind::False
                },
                _ => TermKind::IsZero(Box::new(self.shift_above(t1, ctx, dist))),
            },
            TermKind::Var { idx, len } => TermKind::Var {
                idx: if *idx >= ctx { idx.wrapping_add_signed(dist) } else { *idx },
                len: len.wrapping_add_signed(dist),
            },
            TermKind::Fun { name, ty, term: body } => TermKind::Fun {
                name: copy_bytes(name),
                ty: *ty,
                term: Box::new(
                    self.shift_above(body, if ctx >= 0x7FFF_FFFFu32 { ctx } else { ctx + 1 }, dist),
                ),
            },
            TermKind::Call { callee, arg } => TermKind::Call {
                callee: Box::new(self.shift_above(callee, ctx, dist)),
                arg: Box::new(self.shift_above(arg, ctx, dist)),
            },
        };
        Term { kind, span: term.span }
    }

    /// Shift every free variable of `term` by `dist`.
    pub fn shift(&self, term: &Term, dist: i32) -> (r: Term)
        ensures
            r@ == shift_sp(term@, dist),
    {
        self.shift_above(term, 0, dist)
    }

    /// Replace every variable of `term` denoting index `term_idx` by
    /// `subst_term`, shifted for the depth at each replacement point.
    pub fn subst(&self, term: &Term, term_idx: u32, subst_term: &Term) -> (r: Term)
        ensures
            r@ == subst_sp(term@, term_idx, subst_term@, 0),
    {
        self.subst_walk(term, term_idx, subst_term, 0)
    }

    /// The walk behind [`Eval::subst`], carrying the current binder depth.
    fn subst_walk(&self, term: &Term, term_idx: u32, subst_term: &Term, ctx: u32) -> (r: Term)
        requires
            ctx <= 0x7FFF_FFFFu32,
        ensures
            r@ == subst_sp(term@, term_idx, subst_term@, ctx),
        decreases term,
    {
        let kind = match &term.kind {
            TermKind::True => TermKind::True,
            TermKind::False => TermKind::False,
            TermKind::Zero => TermKind::Zero,
            TermKind::If { cond, then_branch, else_branch } => TermKind::If {
                cond: Box::new(self.subst_walk(cond, term_idx, subst_term, ctx)),
                then_branch: Box::new(self.subst_walk(then_branch, term_idx, subst_term, ctx)),
                else_branch: Box::new(self.subst_walk(else_branch, term_idx, subst_term, ctx)),
            },
            TermKind::Succ(t1) => TermKind::Succ(
                Box::new(self.subst_walk(t1, term_idx, subst_term, ctx)),
            ),
            TermKind::Pred(t1) => match &t1.kind {
                TermKind::Zero => {
                    proof {
                        assert(t1@.kind is Zero);
                    }
                    TermKind::Zero
                },
                TermKind::Succ(t2) => {
                    proof {
                        assert(t1@.kind == TermKindV::Succ(Box::new(t2@)));
                    }
                    return t2.dup();
                },
                _ => TermKind::Pred(Box::new(self.subst_walk(t1, term_idx, subst_term, ctx))),
            },
            TermKind::IsZero(t1) => match &t1.kind {
                TermKind::Zero => {
                    proof {
                        assert(t1@.kind is Zero);
                    }
                    TermKind::True
                },
                TermKind::Succ(t2) => {
                    proof {
                        assert(t1@.kind == TermKindV::Succ(Box::new(t2@)));
                    }
                    TermKind::False
                },
                _ => TermKind::IsZero(Box::new(self.subst_walk(t1, term_idx, subst_term, ctx))),
            },
            TermKind::Var { idx, len } => {
                if (*idx as u64) == (term_idx as u64) + (ctx as u64) {
                    return self.shift_above(subst_term, 0, ctx as i32);
                }
                TermKind::Var { idx: *idx, len: *len }
            },
            TermKind::Fun { name, ty, term: body } => TermKind::Fun {
                name: copy_bytes(name),
                ty: *ty,
                term: Box::new(
                    self.subst_walk(
                        body,
                        term_idx,
                        subst_term,
                        if ctx >= 0x7FFF_FFFFu32 { ctx } else { ctx + 1 },
                    ),
                ),
            },
            TermKind::Call { callee, arg } => TermKind::Call {
                callee: Box::new(self.subst_walk(callee, term_idx, subst_term, ctx)),
                arg: Box::new(self.subst_walk(arg, term_idx, subst_term, ctx)),
            },
        };
        Term { kind, span: term.span }
    }

    /// Beta-reduction's substitution: insert `subst_term` for the
    /// just-consumed binder of `term` and erase that binder level.
    pub fn subst_top(&self, term: &Term, subst_term: &Term) -> (r: Term)
        ensures
            r@ == subst_top_sp(term@, subst_term@),
    {
        let s1 = self.shift(subst_term, 1);
        let t1 = self.subst(term, 0, &s1);
        self.shift(&t1, -1)
    }

    /// Apply one reduction rule, or report that none applies.
    fn eval_1(&self, term: &Term, ctx: &mut Context) -> (r: Option<Term>)
        ensures
            final(ctx)@ == old(ctx)@,
            match r {
                Some(u) => eval1_sp(term@) == Some(u@),
                None => eval1_sp(term@) is None,
            },
        decreases term,
    {
        match &term.kind {
            TermKind::If { cond, then_branch, else_branch } => match &cond.kind {
                TermKind::True => {
                    proof {
                        assert(cond@.kind is True);
                    }
                    Some(then_branch.dup())
                },
                TermKind::False => {
                    proof {
                        assert(cond@.kind is False);
                    }
                    Some(else_branch.dup())
                },
                _ => match self.eval_1(cond, ctx) {
                    Some(c2) => Some(
                        Term {
                            kind: TermKind::If {
                                cond: Box::new(c2),
                                then_branch: Box::new(then_branch.dup()),
                                else_branch: Box::new(else_branch.dup()),
                            },
                            span: term.span,
                        },
                    ),
                    None => None,
                },
            },
            TermKind::Call { callee, arg } => match &callee.kind {
                TermKind::Fun { name: fun_name, ty: fun_ty, term: body } => if arg.is_val(ctx) {
                    proof {
                        assert(callee@.kind == TermKindV::Fun {
                            name: fun_name@,
                            ty: *fun_ty,
                            term: Box::new(body@),
                        });
                    }
                    Some(self.subst_top(body, arg))
                } else {
                    proof {
                        assert(callee@.kind is Fun);
                    }
                    match self.eval_1(arg, ctx) {
                        Some(a2) => Some(
                            Term {
                                kind: TermKind::Call {
                                    callee: Box::new(callee.dup()),
                                    arg: Box::new(a2),
                                },
                                span: term.span,
                            },
                        ),
                        None => None,
                    }
                },
                _ => if callee.is_val(ctx) {
                    match self.eval_1(arg, ctx) {
                        Some(a2) => Some(
                            Term {
                                kind: TermKind::Call {
                                    callee: Box::new(callee.dup()),
                                    arg: Box::new(a2),
                                },
                                span: term.span,
                            },
                        ),
                        None => None,
                    }
                } else {
                    match self.eval_1(callee, ctx) {
                        Some(c2) => Some(
                            Term {
                                kind: TermKind::Call {
                                    callee: Box::new(c2),
                                    arg: Box::new(arg.dup()),
                                },
                                span: term.span,
                            },
                        ),
                        None => None,
                    }
                },
            },
            TermKind::Succ(t1) => match self.eval_1(t1, ctx) {
                Some(u) => Some(Term { kind: TermKind::Succ(Box::new(u)), span: term.span }),
                None => None,
            },
            TermKind::Pred(t1) => match &t1.kind {
                TermKind::Zero => {
                    proof {
                        assert(t1@.kind is Zero);
                    }
                    Some(Term { kind: TermKind::Zero, span: term.span })
                },
                TermKind::Succ(u) => if u.is_numeric() {
                    proof {
                        assert(t1@.kind == TermKindV::Succ(Box::new(u@)));
                    }
                    Some(u.dup())
                } else {
                    proof {
                        assert(t1@.kind == TermKindV::Succ(Box::new(u@)));
                    }
                    match self.eval_1(t1, ctx) {
                        Some(v) => Some(
                            Term { kind: TermKind::Pred(Box::new(v)), span: term.span },
                        ),
                        None => None,
                    }
                },
                _ => match self.eval_1(t1, ctx) {
                    Some(v) => Some(Term { kind: TermKind::Pred(Box::new(v)), span: term.span }),
                    None => None,
                },
            },
            TermKind::IsZero(t1) => match &t1.kind {
                TermKind::Zero => {
                    proof {
                        assert(t1@.kind is Zero);
                    }
                    Some(Term { kind: TermKind::True, span: term.span })
                },
                TermKind::Succ(u) => if u.is_numeric() {
                    proof {
                        assert(t1@.kind == TermKindV::Succ(Box::new(u@)));
                    }
                    Some(Term { kind: TermKind::False, span: term.span })
                } else {
                    proof {
                        assert(t1@.kind == TermKindV::Succ(Box::new(u@)));
                    }
                    match self.eval_1(t1, ctx) {
                        Some(v) => Some(
                            Term { kind: TermKind::IsZero(Box::new(v)), span: term.span },
                        ),
                        None => None,
                    }
                },
                _ => match self.eval_1(t1, ctx) {
                    Some(v) => Some(Term { kind: TermKind::IsZero(Box::new(v)), span: term.span }),
                    None => None,
                },
            },
            _ => None,
        }
    }

    /// Reduce until no rule applies, returning the normal form.  A term
    /// that is already normal — a value or a stuck term — comes back
    /// structurally unchanged.  A reduction sequence longer than
    /// `u64::MAX` steps — which no real machine completes — is cut off
    /// there.
    pub fn eval(&self, term: &Term, ctx: &mut Context) -> (r: Term)
        ensures
            final(ctx)@ == old(ctx)@,
            eval_result(term@, r@),
    {
        let mut cur = term.dup();
        let mut fuel: u64 = u64::MAX;
        let ghost mut n: nat = 0;
        loop
            invariant
                steps_n(term@, cur@, n),
                n + fuel == u64::MAX,
                ctx@ == old(ctx)@,
            decreases fuel,
        {
            if fuel == 0 {
                proof {
                    assert(steps_n(term@, cur@, n) && (normal_sp(cur@) || n == u64::MAX));
                }
                return cur;
            }
            match self.eval_1(&cur, ctx) {
                Some(next) => {
                    proof {
                        lemma_steps_snoc(term@, cur@, n, next@);
                        n = n + 1;
                    }
                    fuel = fuel - 1;
                    cur = next;
                },
                None => {
                    proof {
                        assert(steps_n(term@, cur@, n) && (normal_sp(cur@) || n == u64::MAX));
                    }
                    return cur;
                },
            }
        }
    }
}

/// Reaching `mid` in `n` steps and stepping once more reaches the result
/// of that step in `n + 1` steps.
proof fn lemma_steps_snoc(t: TermV, mid: TermV, n: nat, next: TermV)
    requires
        steps_n(t, mid, n),
        eval1_sp(mid) == Some(next),
    ensures
        steps_n(t, next, n + 1),
    decreases n,
{
    if n == 0 {
        assert(steps_n(next, next, 0));
        assert(steps_n(t, next, 1));
    } else {
        lemma_steps_snoc(eval1_sp(t)->Some_0, mid, (n - 1) as nat, next);
        assert(steps_n(t, next, n + 1));
    }
}

/// What a context slot binds: a bare display name, or a variable carrying
/// its declared type.
#[derive(Clone, Copy, Debug, PartialEq, Eq, Structural)]
pub enum Binding {
    Name,
    Variable(TypeId),
}

/// The naming context: one entry per binder in scope, appended at the
/// innermost end, so the de Bruijn index `i` addresses the entry at
/// position `len - 1 - i`.
pub struct Context {
    list: Vec<(Vec<u8>, Binding)>,
}

impl View for Context {
    type V = Seq<(Seq<u8>, Binding)>;

    closed spec fn view(&self) -> Seq<(Seq<u8>, Binding)> {
        self.list@.map(|i: int, e: (Vec<u8>, Binding)| (e.0@, e.1))
    }
}

/// The entry the de Bruijn index `idx` addresses in `ctx`.
pub open spec fn ctx_entry(ctx: Seq<(Seq<u8>, Binding)>, idx: int) -> (Seq<u8>, Binding) {
    ctx[ctx.len() - 1 - idx]
}

/// Whether some entry of `ctx` has the display name `name`.
pub open spec fn name_bound_sp(ctx: Seq<(Seq<u8>, Binding)>, name: Seq<u8>) -> bool {
    exists|i: int| 0 <= i < ctx.len() && ctx[i].0 == name
}

/// `name` with `k` apostrophes appended.
pub open spec fn apos_ext(name: Seq<u8>, k: nat) -> Seq<u8> {
    name + Seq::new(k, |i: int| 39u8)
}

impl Default for Context {
    /// The empty context.
    fn default() -> (c: Context)
        ensures
            c@ == Seq::<(Seq<u8>, Binding)>::empty(),
    {
        let c = Context { list: Vec::new() };
        proof {
            assert(c@ =~= Seq::<(Seq<u8>, Binding)>::empty());
        }
        c
    }
}

impl Context {
    /// How many binders are in scope.
    pub fn len(&self) -> (n: usize)
        ensures
            n == self@.len(),
    {
        self.list.len()
    }

    /// The display name the de Bruijn index `index` addresses.
    pub fn index_to_name(&self, index: usize) -> (r: Vec<u8>)
        requires
            index < self@.len(),
        ensures
            r@ == ctx_entry(self@, index as int).0,
    {
        let i = self.list.len() - 1 - index;
        copy_bytes(&self.list[i].0)
    }

    /// Append `name` to the context, adding apostrophes until it clashes
    /// with no name already in scope, and return the chosen name.
    pub fn pick_fresh_name(&mut self, name: &Vec<u8>) -> (r: Vec<u8>)
        ensures
            exists|k: nat|
                {
                    &&& r@ == apos_ext(name@, k)
                    &&& !name_bound_sp(old(self)@, r@)
                    &&& forall|j: nat| j < k ==> name_bound_sp(old(self)@, apos_ext(name@, j))
                    &&& final(self)@ == old(self)@.push((r@, Binding::Name))
                },
    {
        let mut fresh = copy_bytes(name);
        let l0 = fresh.len();
        proof {
            assert(fresh@.len() == l0);
        }
        let ghost mut k: nat = 0;
        while self.is_name_bound(&fresh)
            invariant
                fresh@ == apos_ext(name@, k),
                forall|j: nat| j < k ==> name_bound_sp(old(self)@, apos_ext(name@, j)),
                *self == *old(self),
                fresh@.len() <= usize::MAX,
            decreases usize::MAX - fresh@.len(),
        {
            fresh.push(39u8);
            let l1 = fresh.len();
            proof {
                assert(fresh@.len() == l1);
                k = k + 1;
                assert(fresh@ =~= apos_ext(name@, k));
            }
        }
        let chosen = copy_bytes(&fresh);
        let ghost before_push = self@;
        self.list.push((fresh, Binding::Name));
        proof {
            assert(before_push == old(self)@);
            assert(self.list@.last().0@ == chosen@);
            assert(self@ =~= old(self)@.push((chosen@, Binding::Name)));
            assert({
                &&& chosen@ == apos_ext(name@, k)
                &&& !name_bound_sp(old(self)@, chosen@)
                &&& forall|j: nat| j < k ==> name_bound_sp(old(self)@, apos_ext(name@, j))
                &&& final(self)@ == old(self)@.push((chosen@, Binding::Name))
            });
        }
        chosen
    }

    /// Whether `name` is already the display name of some binder in
    /// scope.
    pub fn is_name_bound(&self, name: &Vec<u8>) -> (r: bool)
        ensures
            r == name_bound_sp(self@, name@),
    {
        let mut i: usize = 0;
        while i < self.list.len()
            invariant
                i <= self@.len(),
                forall|j: int| 0 <= j < i ==> self@[j].0 != name@,
            decreases self@.len() - i,
        {
            proof {
                assert(self@[i as int] == (self.list@[i as int].0@, self.list@[i as int].1));
            }
            if bytes_eq(&self.list[i].0, name) {
                proof {
                    assert(self@[i as int].0 == name@);
                }
                return true;
            }
            i = i + 1;
        }
        proof {
            assert(!name_bound_sp(self@, name@));
        }
        false
    }

    /// A context one entry longer, leaving this one untouched; siblings
    /// of a binder therefore never see each other's bindings.
    pub fn add_binding(&self, name: &Vec<u8>, binding: Binding) -> (r: Context)
        ensures
            r@ == self@.push((name@, binding)),
    {
        let mut list: Vec<(Vec<u8>, Binding)> = Vec::new();
        let mut i: usize = 0;
        while i < self.list.len()
            invariant
                i <= self.list.len(),
                list@.len() == i,
                forall|j: int|
                    0 <= j < i ==> (#[trigger] list@[j]).0@ == self.list@[j].0@ && list@[j].1
                        == self.list@[j].1,
            decreases self.list.len() - i,
        {
            list.push((copy_bytes(&self.list[i].0), self.list[i].1));
            i = i + 1;
        }
        list.push((copy_bytes(name), binding));
        let r = Context { list };
        proof {
            assert forall|j: int| 0 <= j < r@.len() implies r@[j] == self@.push(
                (name@, binding),
            )[j] by {
                assert(r@[j] == (r.list@[j].0@, r.list@[j].1));
                if j < self.list@.len() {
                    assert(self@[j] == (self.list@[j].0@, self.list@[j].1));
                }
            }
            assert(r@ =~= self@.push((name@, binding)));
        }
        r
    }

    /// The type the de Bruijn index `index` addresses, or
    /// `UnboundOrWrongBinding` when the index is out of range or the slot
    /// binds a bare name.
    pub fn get_ty(&self, span: Span, index: usize) -> (r: Result<TypeId, LangError>)
        ensures
            r == ctx_get_ty_sp(self@, span, index as int),
    {
        if index >= self.list.len() {
            return Result::Err(LangError { kind: ErrorKind::UnboundOrWrongBinding, span });
        }
        match self.get_binding(index) {
            Binding::Variable(ty) => Result::Ok(ty),
            Binding::Name => Result::Err(
                LangError { kind: ErrorKind::UnboundOrWrongBinding, span },
            ),
        }
    }

    /// What the de Bruijn index `index` is bound to.
    pub fn get_binding(&self, index: usize) -> (r: Binding)
        requires
            index < self@.len(),
        ensures
            r == ctx_entry(self@, index as int).1,
    {
        let i = self.list.len() - 1 - index;
        self.list[i].1
    }
}

/// What [`Context::get_ty`] returns: the type at the index, or the
/// `UnboundOrWrongBinding` error at `span`.
pub open spec fn ctx_get_ty_sp(
    ctx: Seq<(Seq<u8>, Binding)>,
    span: Span,
    index: int,
) -> Result<TypeId, LangError> {
    if 0 <= index < ctx.len() && ctx_entry(ctx, index).1 is Variable {
        Result::Ok(ctx_entry(ctx, index).1->Variable_0)
    } else {
        Result::Err(LangError { kind: ErrorKind::UnboundOrWrongBinding, span })
    }
}

/// A type shape stored in a [`TyContext`] table row: the two base types,
/// or an arrow whose sides are handles to earlier rows.
#[derive(Clone, Copy, Debug, PartialEq, Eq, Structural)]
pub enum Ty {
    Bool,
    Nat,
    Arrow { from: TypeId, to: TypeId },
}

/// A type as a tree, the mathematical reading of a table handle.  Two
/// handles denote equal types exactly when their trees are equal, so
/// type equality is structural, never by handle identity.
pub enum TyV {
    Bool,
    Nat,
    Arrow(Box<TyV>, Box<TyV>),
}

/// The handles of the two pre-registered base types.
#[derive(Clone, Copy, Debug, PartialEq, Eq, Structural)]
pub struct CommonTypes {
    pub boolean: TypeId,
    pub nat: TypeId,
}

/// A well-formed type table: `Bool` at row 0, `Nat` at row 1, and every
/// later row an arrow whose sides point at strictly earlier rows.
pub open spec fn wf_types(tys: Seq<Ty>) -> bool {
    &&& tys.len() >= 2
    &&& tys[0] == Ty::Bool
    &&& tys[1] == Ty::Nat
    &&& forall|i: int|
        2 <= i < tys.len() ==> ((#[trigger] tys[i]) matches Ty::Arrow { from, to } && from < i
            && to < i)
}

/// The tree a table handle denotes.  A handle out of range, or an arrow
/// pointing forward — neither occurs in a well-formed table — reads as
/// `Bool`.
pub open spec fn ty_interp(tys: Seq<Ty>, i: int) -> TyV
    decreases i,
{
    if 0 <= i < tys.len() {
        match tys[i] {
            Ty::Bool => TyV::Bool,
            Ty::Nat => TyV::Nat,
            Ty::Arrow { from, to } => if from < i && to < i {
                TyV::Arrow(
                    Box::new(ty_interp(tys, from as int)),
                    Box::new(ty_interp(tys, to as int)),
                )
            } else {
                TyV::Bool
            },
        }
    } else {
        TyV::Bool
    }
}

/// Rows already in a well-formed table keep their meaning when the table
/// grows at the end.
pub proof fn lemma_interp_extend(tys1: Seq<Ty>, tys2: Seq<Ty>, i: int)
    requires
        wf_types(tys1),
        tys1.is_prefix_of(tys2),
        0 <= i < tys1.len(),
    ensures
        ty_interp(tys2, i) == ty_interp(tys1, i),
    decreases i,
{
    if i >= 2 {
        match tys1[i] {
            Ty::Arrow { from, to } => {
                lemma_interp_extend(tys1, tys2, from as int);
                lemma_interp_extend(tys1, tys2, to as int);
            },
            _ => {},
        }
    }
}

/// The growable table of type shapes, with the two base types
/// pre-registered.
pub struct TyContext {
    pub types: Vec<Ty>,
    pub common: CommonTypes,
}

/// A well-formed [`TyContext`]: a well-formed table with the base-type
/// handles where [`TyContext::new`] put them.
pub open spec fn tyctx_wf(t: TyContext) -> bool {
    &&& wf_types(t.types@)
    &&& t.common == (CommonTypes { boolean: 0, nat: 1 })
}

impl TyContext {
    /// A table holding just `Bool` and `Nat`.
    pub fn new() -> (r: TyContext)
        ensures
            r.types@ =~= seq![Ty::Bool, Ty::Nat],
            r.common == (CommonTypes { boolean: 0, nat: 1 }),
            tyctx_wf(r),
    {
        let common = CommonTypes { boolean: 0, nat: 1 };
        let mut types: Vec<Ty> = Vec::new();
        types.push(Ty::Bool);
        types.push(Ty::Nat);
        proof {
            assert(types@ =~= seq![Ty::Bool, Ty::Nat]);
        }
        TyContext { types, common }
    }

    /// Append an arrow from `from` to `to` and return its handle.
    pub fn new_arrow(&mut self, from: TypeId, to: TypeId) -> (r: TypeId)
        requires
            tyctx_wf(*old(self)),
            from < old(self).types@.len(),
            to < old(self).types@.len(),
        ensures
            r == old(self).types@.len(),
            final(self).types@ == old(self).types@.push(Ty::Arrow { from, to }),
            final(self).common == old(self).common,
            tyctx_wf(*final(self)),
            ty_interp(final(self).types@, r as int) == TyV::Arrow(
                Box::new(ty_interp(old(self).types@, from as int)),
                Box::new(ty_interp(old(self).types@, to as int)),
            ),
    {
        let i = self.types.len();
        self.types.push(Ty::Arrow { from, to });
        proof {
            assert forall|j: int|
                2 <= j < self.types@.len() implies ((#[trigger] self.types@[j]) matches Ty::Arrow {
                from,
                to,
            } && from < j && to < j) by {
                if j < old(self).types@.len() {
                    assert(self.types@[j] == old(self).types@[j]);
                }
            }
            lemma_interp_extend(old(self).types@, self.types@, from as int);
            lemma_interp_extend(old(self).types@, self.types@, to as int);
        }
        i
    }

    /// The handle a surface type name denotes: `bool`, `nat`, or nothing.
    pub fn new_ty(&mut self, symbol: &Vec<u8>) -> (r: Option<TypeId>)
        ensures
            *final(self) == *old(self),
            r == (if symbol@ == lit_lc_bool() {
                Some(old(self).common.boolean)
            } else if symbol@ == lit_lc_nat() {
                Some(old(self).common.nat)
            } else {
                Option::<TypeId>::None
            }),
    {
        if symbol.len() == 4 && symbol[0] == 98 && symbol[1] == 111 && symbol[2] == 111
            && symbol[3] == 108 {
            proof {
                assert(symbol@ =~= lit_lc_bool());
            }
            Some(self.common.boolean)
        } else if symbol.len() == 3 && symbol[0] == 110 && symbol[1] == 97 && symbol[2] == 116 {
            proof {
                assert(symbol@ =~= lit_lc_nat());
                assert(symbol@ != lit_lc_bool());
            }
            Some(self.common.nat)
        } else {
            proof {
                assert(symbol@ != lit_lc_bool() && symbol@ != lit_lc_nat());
            }
            None
        }
    }

    /// The table row a handle addresses.
    pub fn get(&self, id: TypeId) -> (r: Ty)
        requires
            id < self.types@.len(),
        ensures
            r == self.types@[id as int],
    {
        self.types[id]
    }

    /// Whether two handles denote structurally equal types.
    pub fn ty_eq(&self, a: TypeId, b: TypeId) -> (r: bool)
        requires
            wf_types(self.types@),
            a < self.types@.len(),
            b < self.types@.len(),
        ensures
            r == (ty_interp(self.types@, a as int) == ty_interp(self.types@, b as int)),
        decreases a + b,
    {
        let ta = self.types[a];
        let tb = self.types[b];
        match (ta, tb) {
            (Ty::Bool, Ty::Bool) => true,
            (Ty::Nat, Ty::Nat) => true,
            (Ty::Arrow { from: f1, to: t1 }, Ty::Arrow { from: f2, to: t2 }) => {
                proof {
                    if a < 2 || b < 2 {
                        assert(false);
                    }
                }
                self.ty_eq(f1, f2) && self.ty_eq(t1, t2)
            },
            _ => false,
        }
    }
}

/// What a binding contributes to the typing context: nothing for a bare
/// name, the denoted tree for a variable.
pub open spec fn binding_interp(tys: Seq<Ty>, b: Binding) -> Option<TyV> {
    match b {
        Binding::Name => None,
        Binding::Variable(id) => Some(ty_interp(tys, id as int)),
    }
}

/// The typing context a naming context denotes, read in de Bruijn order:
/// entry `i` is what index `i` is bound to.
pub open spec fn ctx_interp(tys: Seq<Ty>, ctx: Seq<(Seq<u8>, Binding)>) -> Seq<Option<TyV>> {
    Seq::new(ctx.len(), |i: int| binding_interp(tys, ctx_entry(ctx, i).1))
}

/// Every type annotation in `t` is a handle below `n`.
pub open spec fn term_anns_ok(t: TermV, n: int) -> bool
    decreases t,
{
    match t.kind {
        TermKindV::If { cond, then_branch, else_branch } => term_anns_ok(*cond, n)
            && term_anns_ok(*then_branch, n) && term_anns_ok(*else_branch, n),
        TermKindV::Succ(t1) => term_anns_ok(*t1, n),
        TermKindV::Pred(t1) => term_anns_ok(*t1, n),
        TermKindV::IsZero(t1) => term_anns_ok(*t1, n),
        TermKindV::Fun { name, ty, term } => ty < n && term_anns_ok(*term, n),
        TermKindV::Call { callee, arg } => term_anns_ok(*callee, n) && term_anns_ok(*arg, n),
        _ => true,
    }
}

/// Every variable binding in `ctx` is a handle below `n`.
pub open spec fn ctx_anns_ok(ctx: Seq<(Seq<u8>, Binding)>, n: int) -> bool {
    forall|i: int|
        0 <= i < ctx.len() ==> ((#[trigger] ctx[i]).1 matches Binding::Variable(id) ==> id < n)
}

/// The type of `t` under typing context `g`, or the first error the
/// syntax-directed rules meet.  `tys` only serves to read the type
/// annotations on binders.
pub open spec fn type_of_sp(tys: Seq<Ty>, g: Seq<Option<TyV>>, t: TermV) -> Result<
    TyV,
    LangError,
>
    decreases t,
{
    match t.kind {
        TermKindV::True | TermKindV::False => Result::Ok(TyV::Bool),
        TermKindV::Zero => Result::Ok(TyV::Nat),
        TermKindV::If { cond, then_branch, else_branch } => match type_of_sp(tys, g, *cond) {
            Result::Ok(tc) => if tc == TyV::Bool {
                match type_of_sp(tys, g, *then_branch) {
                    Result::Ok(t1) => match type_of_sp(tys, g, *else_branch) {
                        Result::Ok(t2) => if t1 == t2 {
                            Result::Ok(t1)
                        } else {
                            Result::Err(
                                LangError { kind: ErrorKind::BranchMismatch, span: t.span },
                            )
                        },
                        Result::Err(e) => Result::Err(e),
                    },
                    Result::Err(e) => Result::Err(e),
                }
            } else {
                Result::Err(LangError { kind: ErrorKind::GuardNotBool, span: cond.span })
            },
            Result::Err(e) => Result::Err(e),
        },
        TermKindV::Succ(t1) => match type_of_sp(tys, g, *t1) {
            Result::Ok(ty1) => if ty1 == TyV::Nat {
                Result::Ok(TyV::Nat)
            } else {
                Result::Err(LangError { kind: ErrorKind::ExpectedNat, span: t1.span })
            },
            Result::Err(e) => Result::Err(e),
        },
        TermKindV::Pred(t1) => match type_of_sp(tys, g, *t1) {
            Result::Ok(ty1) => if ty1 == TyV::Nat {
                Result::Ok(TyV::Nat)
            } else {
                Result::Err(LangError { kind: ErrorKind::ExpectedNat, span: t1.span })
            },
            Result::Err(e) => Result::Err(e),
        },
        TermKindV::IsZero(t1) => match type_of_sp(tys, g, *t1) {
            Result::Ok(ty1) => if ty1 == TyV::Nat {
                Result::Ok(TyV::Bool)
            } else {
                Result::Err(LangError { kind: ErrorKind::ExpectedNat, span: t1.span })
            },
            Result::Err(e) => Result::Err(e),
        },
        TermKindV::Var { idx, len } => if 0 <= idx < g.len() {
            match g[idx as int] {
                Some(tv) => Result::Ok(tv),
                None => Result::Err(
                    LangError { kind: ErrorKind::UnboundOrWrongBinding, span: t.span },
                ),
            }
        } else {
            Result::Err(LangError { kind: ErrorKind::UnboundOrWrongBinding, span: t.span })
        },
        TermKindV::Fun { name, ty, term } => {
            let from = ty_interp(tys, ty as int);
            match type_of_sp(tys, seq![Some(from)] + g, *term) {
                Result::Ok(to) => Result::Ok(TyV::Arrow(Box::new(from), Box::new(to))),
                Result::Err(e) => Result::Err(e),
            }
        },
        TermKindV::Call { callee, arg } => match type_of_sp(tys, g, *callee) {
            Result::Ok(tc) => match type_of_sp(tys, g, *arg) {
                Result::Ok(ta) => match tc {
                    TyV::Arrow(from, to) => if *from == ta {
                        Result::Ok(*to)
                    } else {
                        Result::Err(
                            LangError { kind: ErrorKind::ArgTypeMismatch, span: t.span },
                        )
                    },
                    _ => Result::Err(LangError { kind: ErrorKind::NotAFunction, span: t.span }),
                },
                Result::Err(e) => Result::Err(e),
            },
            Result::Err(e) => Result::Err(e),
        },
    }
}

/// The typing of a term does not change when the table grows: the rules
/// read the table only through the annotations, whose meaning
/// [`lemma_interp_extend`] keeps.
pub proof fn lemma_type_of_extend(
    tys1: Seq<Ty>,
    tys2: Seq<Ty>,
    g: Seq<Option<TyV>>,
    t: TermV,
)
    requires
        wf_types(tys1),
        tys1.is_prefix_of(tys2),
        term_anns_ok(t, tys1.len() as int),
    ensures
        type_of_sp(tys2, g, t) == type_of_sp(tys1, g, t),
    decreases t,
{
    match t.kind {
        TermKindV::If { cond, then_branch, else_branch } => {
            lemma_type_of_extend(tys1, tys2, g, *cond);
            lemma_type_of_extend(tys1, tys2, g, *then_branch);
            lemma_type_of_extend(tys1, tys2, g, *else_branch);
        },
        TermKindV::Succ(t1) => {
            lemma_type_of_extend(tys1, tys2, g, *t1);
        },
        TermKindV::Pred(t1) => {
            lemma_type_of_extend(tys1, tys2, g, *t1);
        },
        TermKindV::IsZero(t1) => {
            lemma_type_of_extend(tys1, tys2, g, *t1);
        },
        TermKindV::Fun { name, ty, term } => {
            lemma_interp_extend(tys1, tys2, ty as int);
            let from = ty_interp(tys1, ty as int);
            lemma_type_of_extend(tys1, tys2, seq![Some(from)] + g, *term);
        },
        TermKindV::Call { callee, arg } => {
            lemma_type_of_extend(tys1, tys2, g, *callee);
            lemma_type_of_extend(tys1, tys2, g, *arg);
        },
        _ => {},
    }
}

/// The bytes of the surface type name `bool`.
pub open spec fn lit_lc_bool() -> Seq<u8> {
    seq![98u8, 111u8, 111u8, 108u8]
}

/// The bytes of the surface type name `nat`.
pub open spec fn lit_lc_nat() -> Seq<u8> {
    seq![110u8, 97u8, 116u8]
}

/// Prefix-of is transitive.
proof fn lemma_prefix_trans(a: Seq<Ty>, b: Seq<Ty>, c: Seq<Ty>)
    requires
        a.is_prefix_of(b),
        b.is_prefix_of(c),
    ensures
        a.is_prefix_of(c),
{
    assert(a =~= c.subrange(0, a.len() as int));
}

/// Annotation bounds only get easier as the table grows.
proof fn lemma_anns_ok_widen(t: TermV, n1: int, n2: int)
    requires
        term_anns_ok(t, n1),
        n1 <= n2,
    ensures
        term_anns_ok(t, n2),
    decreases t,
{
    match t.kind {
        TermKindV::If { cond, then_branch, else_branch } => {
            lemma_anns_ok_widen(*cond, n1, n2);
            lemma_anns_ok_widen(*then_branch, n1, n2);
            lemma_anns_ok_widen(*else_branch, n1, n2);
        },
        TermKindV::Succ(t1) => {
            lemma_anns_ok_widen(*t1, n1, n2);
        },
        TermKindV::Pred(t1) => {
            lemma_anns_ok_widen(*t1, n1, n2);
        },
        TermKindV::IsZero(t1) => {
            lemma_anns_ok_widen(*t1, n1, n2);
        },
        TermKindV::Fun { name, ty, term } => {
            lemma_anns_ok_widen(*term, n1, n2);
        },
        TermKindV::Call { callee, arg } => {
            lemma_anns_ok_widen(*callee, n1, n2);
            lemma_anns_ok_widen(*arg, n1, n2);
        },
        _ => {},
    }
}

/// A naming context keeps its typing reading when the table grows.
proof fn lemma_ctx_interp_extend(tys1: Seq<Ty>, tys2: Seq<Ty>, ctx: Seq<(Seq<u8>, Binding)>)
    requires
        wf_types(tys1),
        tys1.is_prefix_of(tys2),
        ctx_anns_ok(ctx, tys1.len() as int),
    ensures
        ctx_interp(tys2, ctx) == ctx_interp(tys1, ctx),
{
    assert forall|i: int| 0 <= i < ctx.len() implies ctx_interp(tys2, ctx)[i] == ctx_interp(
        tys1,
        ctx,
    )[i] by {
        let b = ctx_entry(ctx, i).1;
        match b {
            Binding::Variable(id) => {
                assert(ctx[ctx.len() - 1 - i].1 matches Binding::Variable(id2) ==> id2 < tys1.len());
                lemma_interp_extend(tys1, tys2, id as int);
            },
            Binding::Name => {},
        }
    }
    assert(ctx_interp(tys2, ctx) =~= ctx_interp(tys1, ctx));
}

impl Eval {
    /// The type of `term` under `ctx`, following the syntax-directed
    /// rules: the table of `tyctx` is read for annotations and grows by
    /// one arrow per function node; type equality is structural.  The
    /// result is the first error the rules meet, if any.
    pub fn type_of(&self, term: &Term, ctx: &Context, tyctx: &mut TyContext) -> (r: Result<
        TypeId,
        LangError,
    >)
        requires
            tyctx_wf(*old(tyctx)),
            term_anns_ok(term@, old(tyctx).types@.len() as int),
            ctx_anns_ok(ctx@, old(tyctx).types@.len() as int),
        ensures
            tyctx_wf(*final(tyctx)),
            final(tyctx).common == old(tyctx).common,
            old(tyctx).types@.is_prefix_of(final(tyctx).types@),
            match r {
                Result::Ok(id) => id < final(tyctx).types@.len() && type_of_sp(
                    old(tyctx).types@,
                    ctx_interp(old(tyctx).types@, ctx@),
                    term@,
                ) == Result::<TyV, LangError>::Ok(ty_interp(final(tyctx).types@, id as int)),
                Result::Err(e) => type_of_sp(
                    old(tyctx).types@,
                    ctx_interp(old(tyctx).types@, ctx@),
                    term@,
                ) == Result::<TyV, LangError>::Err(e),
            },
        decreases term,
    {
        let ghost tys0 = tyctx.types@;
        let ghost g = ctx_interp(tys0, ctx@);
        match &term.kind {
            TermKind::True => Result::Ok(tyctx.common.boolean),
            TermKind::False => Result::Ok(tyctx.common.boolean),
            TermKind::Zero => Result::Ok(tyctx.common.nat),
            TermKind::If { cond, then_branch, else_branch } => {
                let tc = match self.type_of(cond, ctx, tyctx) {
                    Result::Ok(id) => id,
                    Result::Err(e) => {
                        return Result::Err(e);
                    },
                };
                let ghost tys1 = tyctx.types@;
                if tc == tyctx.common.boolean {
                    proof {
                        assert(ty_interp(tys1, tc as int) == TyV::Bool);
                        lemma_anns_ok_widen(then_branch@, tys0.len() as int, tys1.len() as int);
                        lemma_anns_ok_widen(else_branch@, tys0.len() as int, tys1.len() as int);
                        lemma_ctx_interp_extend(tys0, tys1, ctx@);
                        lemma_type_of_extend(tys0, tys1, g, then_branch@);
                    }
                    let ty1 = match self.type_of(then_branch, ctx, tyctx) {
                        Result::Ok(id) => id,
                        Result::Err(e) => {
                            return Result::Err(e);
                        },
                    };
                    let ghost tys2 = tyctx.types@;
                    proof {
                        lemma_prefix_trans(tys0, tys1, tys2);
                        lemma_anns_ok_widen(else_branch@, tys1.len() as int, tys2.len() as int);
                        lemma_ctx_interp_extend(tys1, tys2, ctx@);
                        lemma_type_of_extend(tys1, tys2, ctx_interp(tys1, ctx@), else_branch@);
                        lemma_type_of_extend(tys0, tys1, g, else_branch@);
                    }
                    let ty2 = match self.type_of(else_branch, ctx, tyctx) {
                        Result::Ok(id) => id,
                        Result::Err(e) => {
                            return Result::Err(e);
                        },
                    };
                    let ghost tys3 = tyctx.types@;
                    proof {
                        lemma_prefix_trans(tys0, tys2, tys3);
                        lemma_prefix_trans(tys1, tys2, tys3);
                        lemma_interp_extend(tys2, tys3, ty1 as int);
                    }
                    if tyctx.ty_eq(ty1, ty2) {
                        Result::Ok(ty1)
                    } else {
                        Result::Err(
                            LangError { kind: ErrorKind::BranchMismatch, span: term.span },
                        )
                    }
                } else {
                    proof {
                        assert(ty_interp(tys1, tc as int) != TyV::Bool);
                    }
                    Result::Err(LangError { kind: ErrorKind::GuardNotBool, span: cond.span })
                }
            },
            TermKind::Succ(t1) => {
                let ty1 = match self.type_of(t1, ctx, tyctx) {
                    Result::Ok(id) => id,
                    Result::Err(e) => {
                        return Result::Err(e);
                    },
                };
                let ghost tys1 = tyctx.types@;
                if ty1 == tyctx.common.nat {
                    proof {
                        assert(ty_interp(tys1, ty1 as int) == TyV::Nat);
                    }
                    Result::Ok(ty1)
                } else {
                    proof {
                        assert(ty_interp(tys1, ty1 as int) != TyV::Nat);
                    }
                    Result::Err(LangError { kind: ErrorKind::ExpectedNat, span: t1.span })
                }
            },
            TermKind::Pred(t1) => {
                let ty1 = match self.type_of(t1, ctx, tyctx) {
                    Result::Ok(id) => id,
                    Result::Err(e) => {
                        return Result::Err(e);
                    },
                };
                let ghost tys1 = tyctx.types@;
                if ty1 == tyctx.common.nat {
                    proof {
                        assert(ty_interp(tys1, ty1 as int) == TyV::Nat);
                    }
                    Result::Ok(ty1)
                } else {
                    proof {
                        assert(ty_interp(tys1, ty1 as int) != TyV::Nat);
                    }
                    Result::Err(LangError { kind: ErrorKind::ExpectedNat, span: t1.span })
                }
            },
            TermKind::IsZero(t1) => {
                let ty1 = match self.type_of(t1, ctx, tyctx) {
                    Result::Ok(id) => id,
                    Result::Err(e) => {
                        return Result::Err(e);
                    },
                };
                let ghost tys1 = tyctx.types@;
                if ty1 == tyctx.common.nat {
                    proof {
                        assert(ty_interp(tys1, ty1 as int) == TyV::Nat);
                        assert(ty_interp(tys1, 0int) == TyV::Bool);
                    }
                    Result::Ok(tyctx.common.boolean)
                } else {
                    proof {
                        assert(ty_interp(tys1, ty1 as int) != TyV::Nat);
                    }
                    Result::Err(LangError { kind: ErrorKind::ExpectedNat, span: t1.span })
                }
            },
            TermKind::Var { idx, len: _ } => {
                let r = ctx.get_ty(term.span, *idx as usize);
                proof {
                    if (*idx as int) < ctx@.len() {
                        assert(g[*idx as int] == binding_interp(tys0, ctx_entry(ctx@, *idx as int).1));
                    }
                }
                r
            },
            TermKind::Fun { name, ty, term: body } => {
                let ctx2 = ctx.add_binding(name, Binding::Variable(*ty));
                proof {
                    assert(term@.kind matches TermKindV::Fun { ty: ty_ann, .. } ==> ty_ann == *ty);
                    assert forall|i: int| 0 <= i < ctx2@.len() implies ctx_interp(tys0, ctx2@)[i]
                        == (seq![Some(ty_interp(tys0, *ty as int))] + g)[i] by {
                        if i == 0 {
                            assert(ctx_entry(ctx2@, 0) == (name@, Binding::Variable(*ty)));
                        } else {
                            assert(ctx_entry(ctx2@, i) == ctx_entry(ctx@, i - 1));
                        }
                    }
                    assert(ctx_interp(tys0, ctx2@) =~= seq![Some(ty_interp(tys0, *ty as int))] + g);
                    assert(ctx_anns_ok(ctx2@, tys0.len() as int));
                }
                let to = match self.type_of(body, &ctx2, tyctx) {
                    Result::Ok(id) => id,
                    Result::Err(e) => {
                        return Result::Err(e);
                    },
                };
                let ghost tys1 = tyctx.types@;
                let r = tyctx.new_arrow(*ty, to);
                let ghost tys2 = tyctx.types@;
                proof {
                    assert(tys1.is_prefix_of(tys2));
                    lemma_prefix_trans(tys0, tys1, tys2);
                    lemma_interp_extend(tys0, tys1, *ty as int);
                    assert(ty_interp(tys2, r as int) == TyV::Arrow(
                        Box::new(ty_interp(tys0, *ty as int)),
                        Box::new(ty_interp(tys1, to as int)),
                    ));
                }
                Result::Ok(r)
            },
            TermKind::Call { callee, arg } => {
                let tf = match self.type_of(callee, ctx, tyctx) {
                    Result::Ok(id) => id,
                    Result::Err(e) => {
                        return Result::Err(e);
                    },
                };
                let ghost tys1 = tyctx.types@;
                proof {
                    lemma_anns_ok_widen(arg@, tys0.len() as int, tys1.len() as int);
                    lemma_ctx_interp_extend(tys0, tys1, ctx@);
                    lemma_type_of_extend(tys0, tys1, g, arg@);
                }
                let ta = match self.type_of(arg, ctx, tyctx) {
                    Result::Ok(id) => id,
                    Result::Err(e) => {
                        return Result::Err(e);
                    },
                };
                let ghost tys2 = tyctx.types@;
                proof {
                    lemma_prefix_trans(tys0, tys1, tys2);
                    lemma_interp_extend(tys1, tys2, tf as int);
                }
                match tyctx.get(tf) {
                    Ty::Arrow { from, to } => {
                        proof {
                            assert(tys2[tf as int] == Ty::Arrow { from, to });
                            if tf < 2 {
                                assert(false);
                            }
                            assert(ty_interp(tys2, tf as int) == TyV::Arrow(
                                Box::new(ty_interp(tys2, from as int)),
                                Box::new(ty_interp(tys2, to as int)),
                            ));
                        }
                        if tyctx.ty_eq(from, ta) {
                            Result::Ok(to)
                        } else {
                            Result::Err(
                                LangError { kind: ErrorKind::ArgTypeMismatch, span: term.span },
                            )
                        }
                    },
                    _ => {
                        proof {
                            assert(!(ty_interp(tys2, tf as int) is Arrow));
                        }
                        Result::Err(LangError { kind: ErrorKind::NotAFunction, span: term.span })
                    },
                }
            },
        }
    }
}

/// `k` is the number of apostrophes [`Context::pick_fresh_name`] adds to
/// `name` under `ctx`: the least count making the name fresh.
pub open spec fn is_fresh_at(ctx: Seq<(Seq<u8>, Binding)>, name: Seq<u8>, k: nat) -> bool {
    &&& !name_bound_sp(ctx, apos_ext(name, k))
    &&& forall|j: nat| j < k ==> name_bound_sp(ctx, apos_ext(name, j))
}

/// The apostrophe count that freshens `name` under `ctx`.
pub open spec fn fresh_k(ctx: Seq<(Seq<u8>, Binding)>, name: Seq<u8>) -> nat {
    choose|k: nat| is_fresh_at(ctx, name, k)
}

/// At most one apostrophe count freshens a name.
pub proof fn lemma_fresh_unique(ctx: Seq<(Seq<u8>, Binding)>, name: Seq<u8>, k1: nat, k2: nat)
    requires
        is_fresh_at(ctx, name, k1),
        is_fresh_at(ctx, name, k2),
    ensures
        k1 == k2,
{
    if k1 < k2 {
        assert(name_bound_sp(ctx, apos_ext(name, k1)));
    }
    if k2 < k1 {
        assert(name_bound_sp(ctx, apos_ext(name, k2)));
    }
}

/// The bytes of the keyword `true`.
pub open spec fn lit_true() -> Seq<u8> {
    seq!['t' as u8, 'r' as u8, 'u' as u8, 'e' as u8]
}

/// The bytes of the keyword `false`.
pub open spec fn lit_false() -> Seq<u8> {
    seq!['f' as u8, 'a' as u8, 'l' as u8, 's' as u8, 'e' as u8]
}

/// The bytes of `if `.
pub open spec fn lit_if() -> Seq<u8> {
    seq!['i' as u8, 'f' as u8, ' ' as u8]
}

/// The bytes of ` { `.
pub open spec fn lit_open_block() -> Seq<u8> {
    seq![' ' as u8, '{' as u8, ' ' as u8]
}

/// The bytes of ` } else { `.
pub open spec fn lit_else_block() -> Seq<u8> {
    seq![
        ' ' as u8,
        '}' as u8,
        ' ' as u8,
        'e' as u8,
        'l' as u8,
        's' as u8,
        'e' as u8,
        ' ' as u8,
        '{' as u8,
        ' ' as u8,
    ]
}

/// The bytes of ` }`.
pub open spec fn lit_close_block() -> Seq<u8> {
    seq![' ' as u8, '}' as u8]
}

/// The bytes of `succ `.
pub open spec fn lit_succ() -> Seq<u8> {
    seq!['s' as u8, 'u' as u8, 'c' as u8, 'c' as u8, ' ' as u8]
}

/// The bytes of `pred `.
pub open spec fn lit_pred() -> Seq<u8> {
    seq!['p' as u8, 'r' as u8, 'e' as u8, 'd' as u8, ' ' as u8]
}

/// The bytes of `iszero `.
pub open spec fn lit_iszero() -> Seq<u8> {
    seq!['i' as u8, 's' as u8, 'z' as u8, 'e' as u8, 'r' as u8, 'o' as u8, ' ' as u8]
}

/// The bytes of `[bad index]`, printed for a variable whose recorded
/// context length disagrees with the context, or whose index is out of
/// range.
pub open spec fn lit_bad_index() -> Seq<u8> {
    seq![
        '[' as u8,
        'b' as u8,
        'a' as u8,
        'd' as u8,
        ' ' as u8,
        'i' as u8,
        'n' as u8,
        'd' as u8,
        'e' as u8,
        'x' as u8,
        ']' as u8,
    ]
}

/// What printing `t` under `ctx` emits, and the context afterwards: the
/// printer appends one entry per binder it passes and does not remove
/// them, so siblings printed later see the names chosen earlier.
pub open spec fn print_sp(t: TermV, ctx: Seq<(Seq<u8>, Binding)>) -> (Seq<u8>, Seq<
    (Seq<u8>, Binding),
>)
    decreases t,
{
    match t.kind {
        TermKindV::True => (lit_true(), ctx),
        TermKindV::False => (lit_false(), ctx),
        TermKindV::Zero => (seq!['0' as u8], ctx),
        TermKindV::If { cond, then_branch, else_branch } => {
            let (s1, c1) = print_sp(*cond, ctx);
            let (s2, c2) = print_sp(*then_branch, c1);
            let (s3, c3) = print_sp(*else_branch, c2);
            (lit_if() + s1 + lit_open_block() + s2 + lit_else_block() + s3 + lit_close_block(), c3)
        },
        TermKindV::Succ(t1) => {
            let (s1, c1) = print_sp(*t1, ctx);
            (lit_succ() + s1, c1)
        },
        TermKindV::Pred(t1) => {
            let (s1, c1) = print_sp(*t1, ctx);
            (lit_pred() + s1, c1)
        },
        TermKindV::IsZero(t1) => {
            let (s1, c1) = print_sp(*t1, ctx);
            (lit_iszero() + s1, c1)
        },
        TermKindV::Fun { name, ty, term } => {
            let fresh = apos_ext(name, fresh_k(ctx, name));
            let c1 = ctx.push((fresh, Binding::Name));
            let (s1, c2) = print_sp(*term, c1);
            (
                seq!['(' as u8, '|' as u8] + fresh + seq!['|' as u8, ' ' as u8] + s1 + seq![
                    ')' as u8,
                ],
                c2,
            )
        },
        TermKindV::Call { callee, arg } => {
            let (s1, c1) = print_sp(*callee, ctx);
            let (s2, c2) = print_sp(*arg, c1);
            (seq!['(' as u8] + s1 + seq![' ' as u8] + s2 + seq![')' as u8], c2)
        },
        TermKindV::Var { idx, len } => if ctx.len() == len && idx < len {
            (ctx_entry(ctx, idx as int).0, ctx)
        } else {
            (lit_bad_index(), ctx)
        },
    }
}

/// What rendering the type at handle `i` emits: the base names, or the
/// arrow written `|from| to`.  A handle out of a well-formed table's
/// range renders as nothing.
pub open spec fn render_ty_sp(tys: Seq<Ty>, i: int) -> Seq<u8>
    decreases i,
{
    if 0 <= i < tys.len() {
        match tys[i] {
            Ty::Bool => seq!['B' as u8, 'o' as u8, 'o' as u8, 'l' as u8],
            Ty::Nat => seq!['N' as u8, 'a' as u8, 't' as u8],
            Ty::Arrow { from, to } => if from < i && to < i {
                seq!['|' as u8] + render_ty_sp(tys, from as int) + seq!['|' as u8, ' ' as u8]
                    + render_ty_sp(tys, to as int)
            } else {
                Seq::empty()
            },
        }
    } else {
        Seq::empty()
    }
}

impl Eval {
    /// Render `term` onto the end of `buf` in surface syntax, recovering
    /// binder names through `ctx`: each binder passed appends a fresh
    /// name to `ctx`, and a variable whose recorded context length does
    /// not match `ctx` — or whose index is out of range — prints as
    /// `[bad index]` instead of failing.
    pub fn print(&self, term: &Term, ctx: &mut Context, buf: &mut Vec<u8>)
        ensures
            final(buf)@ == old(buf)@ + print_sp(term@, old(ctx)@).0,
            final(ctx)@ == print_sp(term@, old(ctx)@).1,
        decreases term,
    {
        match &term.kind {
            TermKind::True => {
                proof {
                    reveal_strlit("true");
                }
                push_lit(buf, "true");
                proof {
                    assert(Seq::new("true"@.len(), |i: int| "true"@[i] as u8) =~= lit_true());
                }
            },
            TermKind::False => {
                proof {
                    reveal_strlit("false");
                }
                push_lit(buf, "false");
                proof {
                    assert(Seq::new("false"@.len(), |i: int| "false"@[i] as u8) =~= lit_false());
                }
            },
            TermKind::Zero => {
                proof {
                    reveal_strlit("0");
                }
                push_lit(buf, "0");
                proof {
                    assert(Seq::new("0"@.len(), |i: int| "0"@[i] as u8) =~= seq!['0' as u8]);
                }
            },
            TermKind::If { cond, then_branch, else_branch } => {
                proof {
                    reveal_strlit("if ");
                    reveal_strlit(" { ");
                    reveal_strlit(" } else { ");
                    reveal_strlit(" }");
                }
                push_lit(buf, "if ");
                proof {
                    assert(Seq::new("if "@.len(), |i: int| "if "@[i] as u8) =~= lit_if());
                }
                self.print(cond, ctx, buf);
                push_lit(buf, " { ");
                proof {
                    assert(Seq::new(" { "@.len(), |i: int| " { "@[i] as u8) =~= lit_open_block());
                }
                self.print(then_branch, ctx, buf);
                push_lit(buf, " } else { ");
                proof {
                    assert(Seq::new(" } else { "@.len(), |i: int| " } else { "@[i] as u8)
                        =~= lit_else_block());
                }
                self.print(else_branch, ctx, buf);
                push_lit(buf, " }");
                proof {
                    assert(Seq::new(" }"@.len(), |i: int| " }"@[i] as u8) =~= lit_close_block());
                    assert(final(buf)@ =~= old(buf)@ + print_sp(term@, old(ctx)@).0);
                }
            },
            TermKind::Succ(t1) => {
                proof {
                    reveal_strlit("succ ");
                }
                push_lit(buf, "succ ");
                proof {
                    assert(Seq::new("succ "@.len(), |i: int| "succ "@[i] as u8) =~= lit_succ());
                }
                self.print(t1, ctx, buf);
            },
            TermKind::Pred(t1) => {
                proof {
                    reveal_strlit("pred ");
                }
                push_lit(buf, "pred ");
                proof {
                    assert(Seq::new("pred "@.len(), |i: int| "pred "@[i] as u8) =~= lit_pred());
                }
                self.print(t1, ctx, buf);
            },
            TermKind::IsZero(t1) => {
                proof {
                    reveal_strlit("iszero ");
                }
                push_lit(buf, "iszero ");
                proof {
                    assert(Seq::new("iszero "@.len(), |i: int| "iszero "@[i] as u8)
                        =~= lit_iszero());
                }
                self.print(t1, ctx, buf);
            },
            TermKind::Fun { name, ty: _, term: body } => {
                let ghost c0 = ctx@;
                let fresh = ctx.pick_fresh_name(name);
                proof {
                    let k0 = choose|k: nat|
                        {
                            &&& fresh@ == apos_ext(name@, k)
                            &&& !name_bound_sp(c0, fresh@)
                            &&& forall|j: nat| j < k ==> name_bound_sp(c0, apos_ext(name@, j))
                            &&& ctx@ == c0.push((fresh@, Binding::Name))
                        };
                    assert(is_fresh_at(c0, name@, k0));
                    assert(is_fresh_at(c0, name@, fresh_k(c0, name@)));
                    lemma_fresh_unique(c0, name@, k0, fresh_k(c0, name@));
                    reveal_strlit("(|");
                    reveal_strlit("| ");
                    reveal_strlit(")");
                }
                push_lit(buf, "(|");
                proof {
                    assert(Seq::new("(|"@.len(), |i: int| "(|"@[i] as u8) =~= seq![
                        '(' as u8,
                        '|' as u8,
                    ]);
                }
                push_all(buf, fresh.as_slice());
                push_lit(buf, "| ");
                proof {
                    assert(Seq::new("| "@.len(), |i: int| "| "@[i] as u8) =~= seq![
                        '|' as u8,
                        ' ' as u8,
                    ]);
                }
                self.print(body, ctx, buf);
                push_lit(buf, ")");
                proof {
                    assert(Seq::new(")"@.len(), |i: int| ")"@[i] as u8) =~= seq![')' as u8]);
                    assert(final(buf)@ =~= old(buf)@ + print_sp(term@, old(ctx)@).0);
                }
            },
            TermKind::Call { callee, arg } => {
                proof {
                    reveal_strlit("(");
                    reveal_strlit(" ");
                    reveal_strlit(")");
                }
                push_lit(buf, "(");
                proof {
                    assert(Seq::new("("@.len(), |i: int| "("@[i] as u8) =~= seq!['(' as u8]);
                }
                self.print(callee, ctx, buf);
                push_lit(buf, " ");
                proof {
                    assert(Seq::new(" "@.len(), |i: int| " "@[i] as u8) =~= seq![' ' as u8]);
                }
                self.print(arg, ctx, buf);
                push_lit(buf, ")");
                proof {
                    assert(Seq::new(")"@.len(), |i: int| ")"@[i] as u8) =~= seq![')' as u8]);
                    assert(final(buf)@ =~= old(buf)@ + print_sp(term@, old(ctx)@).0);
                }
            },
            TermKind::Var { idx, len } => {
                if ctx.len() == (*len as usize) && (*idx as usize) < ctx.len() {
                    let nm = ctx.index_to_name(*idx as usize);
                    push_all(buf, nm.as_slice());
                } else {
                    proof {
                        reveal_strlit("[bad index]");
                    }
                    push_lit(buf, "[bad index]");
                    proof {
                        assert(Seq::new("[bad index]"@.len(), |i: int| "[bad index]"@[i] as u8)
                            =~= lit_bad_index());
                    }
                }
            },
        }
    }
}

impl TyContext {
    /// Render the type at handle `id`: `Bool`, `Nat`, or `|from| to`.
    pub fn print(&self, id: TypeId) -> (r: Vec<u8>)
        requires
            wf_types(self.types@),
            id < self.types@.len(),
        ensures
            r@ == render_ty_sp(self.types@, id as int),
    {
        let mut buf: Vec<u8> = Vec::new();
        self.render(id, &mut buf);
        proof {
            assert(buf@ =~= render_ty_sp(self.types@, id as int));
        }
        buf
    }

    /// The walk behind [`TyContext::print`].
    fn render(&self, id: TypeId, buf: &mut Vec<u8>)
        requires
            wf_types(self.types@),
            id < self.types@.len(),
        ensures
            final(buf)@ == old(buf)@ + render_ty_sp(self.types@, id as int),
        decreases id,
    {
        match self.types[id] {
            Ty::Bool => {
                proof {
                    reveal_strlit("Bool");
                }
                push_lit(buf, "Bool");
                proof {
                    assert(Seq::new("Bool"@.len(), |i: int| "Bool"@[i] as u8) =~= seq![
                        'B' as u8,
                        'o' as u8,
                        'o' as u8,
                        'l' as u8,
                    ]);
                }
            },
            Ty::Nat => {
                proof {
                    reveal_strlit("Nat");
                }
                push_lit(buf, "Nat");
                proof {
                    assert(Seq::new("Nat"@.len(), |i: int| "Nat"@[i] as u8) =~= seq![
                        'N' as u8,
                        'a' as u8,
                        't' as u8,
                    ]);
                }
            },
            Ty::Arrow { from, to } => {
                proof {
                    if id < 2 {
                        assert(false);
                    }
                    reveal_strlit("|");
                    reveal_strlit("| ");
                }
                push_lit(buf, "|");
                proof {
                    assert(Seq::new("|"@.len(), |i: int| "|"@[i] as u8) =~= seq!['|' as u8]);
                }
                self.render(from, buf);
                push_lit(buf, "| ");
                proof {
                    assert(Seq::new("| "@.len(), |i: int| "| "@[i] as u8) =~= seq![
                        '|' as u8,
                        ' ' as u8,
                    ]);
                }
                self.render(to, buf);
                proof {
                    assert(final(buf)@ =~= old(buf)@ + render_ty_sp(self.types@, id as int));
                }
            },
        }
    }
}

} // verus!
