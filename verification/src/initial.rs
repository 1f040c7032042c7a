//! The arithmetic fragment: booleans and natural numbers, no binders.
//!
//! Terms are `true`, `false`, `0`, `succ`, `pred`, `iszero` and the
//! conditional.  A term is evaluated by repeatedly applying one small-step
//! reduction rule until none applies; the rules are deterministic, so every
//! term has at most one normal form.

use crate::span::Span;
use vstd::prelude::*;

verus! {

/// A term of the arithmetic fragment, tagged with the source range it came
/// from.  The span has no semantic role.
#[derive(Debug, PartialEq)]
pub struct Term {
    pub kind: TermKind,
    pub span: Span,
}

/// The shape of a term: boolean and numeric literals, the unary numeric
/// operators, and the conditional.
#[derive(Debug, PartialEq)]
pub enum TermKind {
    True,
    False,
    Zero,
    If(Box<Term>, Box<Term>, Box<Term>),
    Succ(Box<Term>),
    Pred(Box<Term>),
    IsZero(Box<Term>),
}

/// Whether `t` is a numeral: `Zero` under zero or more `Succ`s.
pub open spec fn is_numeric_sp(t: Term) -> bool
    decreases t,
{
    match t.kind {
        TermKind::Zero => true,
        TermKind::Succ(t1) => is_numeric_sp(*t1),
        _ => false,
    }
}

/// Whether `t` is a value: a boolean literal or a numeral.  Values are
/// exactly the normal forms that evaluation is meant to reach.
pub open spec fn is_val_sp(t: Term) -> bool {
    t.kind is True || t.kind is False || is_numeric_sp(t)
}

/// One small-step reduction: `Some(t2)` when a rule applies to `t`,
/// `None` when `t` is a value or is stuck.  The rules are tried in a fixed
/// order and at most one applies to any term, so reduction is a function.
pub open spec fn step_sp(t: Term) -> Option<Term>
    decreases t,
{
    match t.kind {
        TermKind::If(cond, t2, t3) => match cond.kind {
            TermKind::True => Some(*t2),
            TermKind::False => Some(*t3),
            _ => match step_sp(*cond) {
                Some(c2) => Some(
                    Term { kind: TermKind::If(Box::new(c2), t2, t3), span: t.span },
                ),
                None => None,
            },
        },
        TermKind::Succ(t1) => match step_sp(*t1) {
            Some(u) => Some(Term { kind: TermKind::Succ(Box::new(u)), span: t.span }),
            None => None,
        },
        TermKind::Pred(t1) => match t1.kind {
            TermKind::Zero => Some(Term { kind: TermKind::Zero, span: Span { lo: 0, hi: 0, line: 0 } }),
            TermKind::Succ(u) => if is_numeric_sp(*u) {
                Some(*u)
            } else {
                match step_sp(*t1) {
                    Some(v) => Some(Term { kind: TermKind::Pred(Box::new(v)), span: t.span }),
                    None => None,
                }
            },
            _ => match step_sp(*t1) {
                Some(v) => Some(Term { kind: TermKind::Pred(Box::new(v)), span: t.span }),
                None => None,
            },
        },
        TermKind::IsZero(t1) => match t1.kind {
            TermKind::Zero => Some(
                Term { kind: TermKind::True, span: Span { lo: 0, hi: 0, line: 0 } },
            ),
            TermKind::Succ(u) => if is_numeric_sp(*u) {
                Some(Term { kind: TermKind::False, span: Span { lo: 0, hi: 0, line: 0 } })
            } else {
                match step_sp(*t1) {
                    Some(v) => Some(Term { kind: TermKind::IsZero(Box::new(v)), span: t.span }),
                    None => None,
                }
            },
            _ => match step_sp(*t1) {
                Some(v) => Some(Term { kind: TermKind::IsZero(Box::new(v)), span: t.span }),
                None => None,
            },
        },
        _ => None,
    }
}

/// The number of nodes in `t`.  Every reduction rule of this fragment
/// strictly shrinks the term, so evaluation terminates.
pub open spec fn size_sp(t: Term) -> nat
    decreases t,
{
    match t.kind {
        TermKind::If(c, a, b) => 1 + size_sp(*c) + size_sp(*a) + size_sp(*b),
        TermKind::Succ(t1) => 1 + size_sp(*t1),
        TermKind::Pred(t1) => 1 + size_sp(*t1),
        TermKind::IsZero(t1) => 1 + size_sp(*t1),
        _ => 1,
    }
}

/// One reduction step strictly decreases the node count.
proof fn lemma_step_shrinks(t: Term)
    requires
        step_sp(t) is Some,
    ensures
        size_sp(step_sp(t)->Some_0) < size_sp(t),
    decreases t,
{
    let u = step_sp(t)->Some_0;
    match t.kind {
        TermKind::If(cond, t2, t3) => match cond.kind {
            TermKind::True => {
                assert(size_sp(t) == 1 + size_sp(*cond) + size_sp(*t2) + size_sp(*t3));
                assert(u == *t2);
            },
            TermKind::False => {
                assert(size_sp(t) == 1 + size_sp(*cond) + size_sp(*t2) + size_sp(*t3));
                assert(u == *t3);
            },
            _ => {
                lemma_step_shrinks(*cond);
                let c2 = step_sp(*cond)->Some_0;
                assert(size_sp(t) == 1 + size_sp(*cond) + size_sp(*t2) + size_sp(*t3));
                assert(size_sp(u) == 1 + size_sp(c2) + size_sp(*t2) + size_sp(*t3));
            },
        },
        TermKind::Succ(t1) => {
            lemma_step_shrinks(*t1);
            assert(size_sp(t) == 1 + size_sp(*t1));
            assert(size_sp(u) == 1 + size_sp(step_sp(*t1)->Some_0));
        },
        TermKind::Pred(t1) => match t1.kind {
            TermKind::Zero => {
                assert(size_sp(t) == 1 + size_sp(*t1));
                assert(size_sp(u) == 1);
            },
            TermKind::Succ(n1) => if is_numeric_sp(*n1) {
                assert(size_sp(t) == 1 + size_sp(*t1));
                assert(size_sp(*t1) == 1 + size_sp(*n1));
                assert(u == *n1);
            } else {
                lemma_step_shrinks(*t1);
                assert(size_sp(t) == 1 + size_sp(*t1));
                assert(size_sp(u) == 1 + size_sp(step_sp(*t1)->Some_0));
            },
            _ => {
                lemma_step_shrinks(*t1);
                assert(size_sp(t) == 1 + size_sp(*t1));
                assert(size_sp(u) == 1 + size_sp(step_sp(*t1)->Some_0));
            },
        },
        TermKind::IsZero(t1) => match t1.kind {
            TermKind::Zero => {
                assert(size_sp(t) == 1 + size_sp(*t1));
                assert(size_sp(u) == 1);
            },
            TermKind::Succ(n1) => if is_numeric_sp(*n1) {
                assert(size_sp(t) == 1 + size_sp(*t1));
                assert(size_sp(*t1) == 1 + size_sp(*n1));
                assert(size_sp(u) == 1);
            } else {
                lemma_step_shrinks(*t1);
                assert(size_sp(t) == 1 + size_sp(*t1));
                assert(size_sp(u) == 1 + size_sp(step_sp(*t1)->Some_0));
            },
            _ => {
                lemma_step_shrinks(*t1);
                assert(size_sp(t) == 1 + size_sp(*t1));
                assert(size_sp(u) == 1 + size_sp(step_sp(*t1)->Some_0));
            },
        },
        _ => {},
    }
}

/// `t` reaches `r` in exactly `n` reduction steps.
pub open spec fn steps_n(t: Term, r: Term, n: nat) -> bool
    decreases n,
{
    if n == 0 {
        t == r
    } else {
        match step_sp(t) {
            Some(u) => steps_n(u, r, (n - 1) as nat),
            None => false,
        }
    }
}

/// `t` has no applicable reduction rule.
pub open spec fn normal_sp(t: Term) -> bool {
    step_sp(t) is None
}

/// `r` is the normal form of `t`: reachable in finitely many steps and
/// itself irreducible.
pub open spec fn evals_to(t: Term, r: Term) -> bool {
    exists|n: nat| steps_n(t, r, n) && normal_sp(r)
}

impl Term {
    /// A term with the given shape and a placeholder span.
    pub fn new(kind: TermKind) -> (t: Term)
        ensures
            t.kind == kind,
            t.span == (Span { lo: 0, hi: 0, line: 0 }),
    {
        Term { kind, span: Span::dummy() }
    }

    /// A structurally equal copy of this term.
    pub fn dup(&self) -> (r: Term)
        ensures
            r == *self,
        decreases self,
    {
        let kind = match &self.kind {
            TermKind::True => TermKind::True,
            TermKind::False => TermKind::False,
            TermKind::Zero => TermKind::Zero,
            TermKind::If(c, a, b) => TermKind::If(
                Box::new(c.dup()),
                Box::new(a.dup()),
                Box::new(b.dup()),
            ),
            TermKind::Succ(t1) => TermKind::Succ(Box::new(t1.dup())),
            TermKind::Pred(t1) => TermKind::Pred(Box::new(t1.dup())),
            TermKind::IsZero(t1) => TermKind::IsZero(Box::new(t1.dup())),
        };
        Term { kind, span: self.span }
    }

    /// Whether this term is a numeral.
    pub fn is_numeric(&self) -> (r: bool)
        ensures
            r == is_numeric_sp(*self),
        decreases self,
    {
        match &self.kind {
            TermKind::Zero => true,
            TermKind::Succ(t1) => t1.is_numeric(),
            _ => false,
        }
    }

    /// Whether this term is a value (a boolean literal or a numeral).
    pub fn is_val(&self) -> (r: bool)
        ensures
            r == is_val_sp(*self),
    {
        match &self.kind {
            TermKind::True | TermKind::False => true,
            _ => self.is_numeric(),
        }
    }

    /// Apply one reduction rule, or report that none applies.
    fn eval_1(&self) -> (r: Option<Term>)
        ensures
            r == step_sp(*self),
        decreases self,
    {
        match &self.kind {
            TermKind::If(cond, t2, t3) => match &cond.kind {
                TermKind::True => Some(t2.dup()),
                TermKind::False => Some(t3.dup()),
                _ => match cond.eval_1() {
                    Some(c2) => Some(
                        Term {
                            kind: TermKind::If(Box::new(c2), Box::new(t2.dup()), Box::new(t3.dup())),
                            span: self.span,
                        },
                    ),
                    None => None,
                },
            },
            TermKind::Succ(t1) => match t1.eval_1() {
                Some(u) => Some(Term { kind: TermKind::Succ(Box::new(u)), span: self.span }),
                None => None,
            },
            TermKind::Pred(t1) => match &t1.kind {
                TermKind::Zero => Some(Term::new(TermKind::Zero)),
                TermKind::Succ(u) => if u.is_numeric() {
                    Some(u.dup())
                } else {
                    match t1.eval_1() {
                        Some(v) => Some(
                            Term { kind: TermKind::Pred(Box::new(v)), span: self.span },
                        ),
                        None => None,
                    }
                },
                _ => match t1.eval_1() {
                    Some(v) => Some(Term { kind: TermKind::Pred(Box::new(v)), span: self.span }),
                    None => None,
                },
            },
            TermKind::IsZero(t1) => match &t1.kind {
                TermKind::Zero => Some(Term::new(TermKind::True)),
                TermKind::Succ(u) => if u.is_numeric() {
                    Some(Term::new(TermKind::False))
                } else {
                    match t1.eval_1() {
                        Some(v) => Some(
                            Term { kind: TermKind::IsZero(Box::new(v)), span: self.span },
                        ),
                        None => None,
                    }
                },
                _ => match t1.eval_1() {
                    Some(v) => Some(Term { kind: TermKind::IsZero(Box::new(v)), span: self.span }),
                    None => None,
                },
            },
            _ => None,
        }
    }

    /// Reduce until no rule applies, returning the normal form.  A term
    /// that is already normal — a value or a stuck term — comes back
    /// structurally unchanged.
    pub fn eval(&self) -> (r: Term)
        ensures
            evals_to(*self, r),
    {
        let mut cur = self.dup();
        let ghost mut n: nat = 0;
        loop
            invariant
                steps_n(*self, cur, n),
            decreases size_sp(cur),
        {
            match cur.eval_1() {
                Some(next) => {
                    proof {
                        lemma_steps_snoc(*self, cur, n, next);
                        lemma_step_shrinks(cur);
                        n = n + 1;
                    }
                    cur = next;
                },
                None => {
                    proof {
                        assert(steps_n(*self, cur, n) && normal_sp(cur));
                    }
                    return cur;
                },
            }
        }
    }
}

/// Reaching `mid` in `n` steps and stepping once more reaches the result
/// of that step in `n + 1` steps.
proof fn lemma_steps_snoc(t: Term, mid: Term, n: nat, next: Term)
    requires
        steps_n(t, mid, n),
        step_sp(mid) == Some(next),
    ensures
        steps_n(t, next, n + 1),
    decreases n,
{
    if n == 0 {
        assert(steps_n(next, next, 0));
        assert(steps_n(t, next, 1));
    } else {
        lemma_steps_snoc(step_sp(t)->Some_0, mid, (n - 1) as nat, next);
        assert(steps_n(t, next, n + 1));
    }
}

/// A term with no applicable rule evaluates to itself: zero steps lead to
/// it and it is normal.
pub proof fn lemma_normal_form_fixed(t: Term)
    requires
        normal_sp(t),
    ensures
        evals_to(t, t),
        forall|r: Term| evals_to(t, r) ==> r == t,
{
    assert(steps_n(t, t, 0) && normal_sp(t));
    assert forall|r: Term| evals_to(t, r) implies r == t by {
        let n = choose|n: nat| steps_n(t, r, n) && normal_sp(r);
        if n != 0 {
            assert(step_sp(t) is Some);
        }
    }
}

/// Reduction is deterministic, so normal forms are unique: any two normal
/// forms reached from the same term are structurally equal.
pub proof fn lemma_eval_deterministic(t: Term, r1: Term, r2: Term)
    requires
        evals_to(t, r1),
        evals_to(t, r2),
    ensures
        r1 == r2,
{
    let n1 = choose|n: nat| steps_n(t, r1, n) && normal_sp(r1);
    let n2 = choose|n: nat| steps_n(t, r2, n) && normal_sp(r2);
    lemma_steps_confluent(t, r1, n1, r2, n2);
}

proof fn lemma_steps_confluent(t: Term, r1: Term, n1: nat, r2: Term, n2: nat)
    requires
        steps_n(t, r1, n1),
        normal_sp(r1),
        steps_n(t, r2, n2),
        normal_sp(r2),
    ensures
        r1 == r2,
    decreases n1,
{
    if n1 == 0 {
        if n2 != 0 {
            assert(step_sp(t) is Some);
        }
    } else {
        if n2 == 0 {
            assert(step_sp(t) is Some);
        } else {
            lemma_steps_confluent(
                step_sp(t)->Some_0,
                r1,
                (n1 - 1) as nat,
                r2,
                (n2 - 1) as nat,
            );
        }
    }
}

} // verus!
