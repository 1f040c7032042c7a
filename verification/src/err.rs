//! Structured errors and caret-annotated diagnostic rendering.
//!
//! Lexical, syntactic and type errors are surfaced as values of
//! [`LangError`]: a kind plus the source span it points at.  A driver that
//! wants the classic report-and-quit behaviour turns a `LangError` into a
//! [`Diagnostic`] together with a message of its choosing, renders it with
//! [`Diagnostic::report`], prints the bytes and exits.

use crate::span::Span;
use crate::util::{copy_bytes, push_all, push_repeat, slice_bytes};
use vstd::prelude::*;

verus! {

/// Everything the lexer, the parser or a type checker can object to.
#[derive(Clone, Copy, Debug, PartialEq, Eq, Structural)]
pub enum ErrorKind {
    /// A byte that starts no token.
    UnknownCharacter,
    /// `if` condition not followed by `{`.
    ExpectedOpenBraceAfterIf,
    /// A block was not closed by `}`.
    ExpectedCloseBrace,
    /// An `if` block without a following `else`.
    ExpectedElse,
    /// `else` not followed by `{`.
    ExpectedOpenBraceAfterElse,
    /// `|` not followed by a parameter name.
    ExpectedParamName,
    /// A lambda parameter without `:` before its type.
    ExpectedColonAfterParam,
    /// `:` not followed by a type name.
    ExpectedParamType,
    /// A type annotation naming neither `Bool` nor `Nat`.
    UnknownTypeName,
    /// A lambda parameter list not closed by `|`.
    ExpectedPipeAfterParam,
    /// A token that starts no expression.
    UnexpectedToken,
    /// The condition of an `if` is not a boolean.
    GuardNotBool,
    /// The two arms of an `if` have different types.
    BranchMismatch,
    /// `succ`, `pred` or `iszero` applied to a non-natural.
    ExpectedNat,
    /// The callee of an application has no arrow type.
    NotAFunction,
    /// The argument of an application does not match the parameter type.
    ArgTypeMismatch,
    /// A variable index that is out of range or bound to a bare name.
    UnboundOrWrongBinding,
}

/// An error value: what went wrong, and where in the source.
#[derive(Clone, Copy, Debug, PartialEq, Eq, Structural)]
pub struct LangError {
    pub kind: ErrorKind,
    pub span: Span,
}

impl LangError {
    /// An error of the given kind pointing at the given span.
    pub fn new(kind: ErrorKind, span: Span) -> (e: LangError)
        ensures
            e == (LangError { kind, span }),
    {
        LangError { kind, span }
    }
}

/// The index just after the last newline strictly before `i`, or 0.
pub open spec fn rfind_nl(s: Seq<u8>, i: int) -> int
    decreases i,
{
    if i <= 0 {
        0
    } else if s[i - 1] == 10 {
        i
    } else {
        rfind_nl(s, i - 1)
    }
}

/// The index of the first newline at or after `i`, or the length.
pub open spec fn find_nl(s: Seq<u8>, i: int) -> int
    decreases s.len() - i,
{
    if 0 <= i < s.len() {
        if s[i] == 10 {
            i
        } else {
            find_nl(s, i + 1)
        }
    } else {
        s.len() as int
    }
}

/// How many newlines `s[lo..hi]` holds.
pub open spec fn count_nl(s: Seq<u8>, lo: int, hi: int) -> int
    decreases hi - lo,
{
    if lo < hi && 0 <= lo && hi <= s.len() {
        (if s[lo] == 10 {
            1int
        } else {
            0int
        }) + count_nl(s, lo + 1, hi)
    } else {
        0
    }
}

/// Where the line containing offset `from` starts: just after the
/// previous newline.  The offset is clamped into the source first; an
/// empty source gives 0.
pub open spec fn line_start_sp(s: Seq<u8>, from: int) -> int {
    if s.len() == 0 {
        0
    } else {
        rfind_nl(s, if from < s.len() {
            from
        } else {
            s.len() - 1
        })
    }
}

/// Where the line containing offset `from` ends: at the next newline,
/// or at the end of the source.
pub open spec fn line_end_sp(s: Seq<u8>, from: int) -> int {
    if s.len() == 0 {
        0
    } else {
        find_nl(s, if from < s.len() {
            from
        } else {
            s.len() - 1
        })
    }
}

/// `n` copies of the byte `b` (none for negative `n`).
pub open spec fn byte_repeat(b: u8, n: int) -> Seq<u8> {
    Seq::new(if n >= 0 {
        n as nat
    } else {
        0
    }, |i: int| b)
}

/// The bytes of `s[lo..hi]`, empty when the range is degenerate.
pub open spec fn seg(s: Seq<u8>, lo: int, hi: int) -> Seq<u8> {
    if 0 <= lo <= hi <= s.len() {
        s.subrange(lo, hi)
    } else {
        Seq::empty()
    }
}

/// What [`Diagnostic::report`] renders when the span ends inside the
/// source: the source line(s) of the span, then — when they are a
/// single line — a caret line under the span followed by the message,
/// or — across several lines — the message alone, indented by one
/// space.
pub open spec fn report_in_bounds_sp(src: Seq<u8>, msg: Seq<u8>, span: Span) -> Seq<u8> {
    let start = line_start_sp(src, span.lo as int);
    let end = line_end_sp(src, span.hi as int);
    let lines = count_nl(src, start, end) + 1;
    if lines == 1 {
        seg(src, start, end) + seq![10u8] + byte_repeat(32, span.lo - start) + byte_repeat(
            94,
            span.hi - span.lo,
        ) + seq![32u8] + msg
    } else {
        seg(src, start, end) + seq![10u8, 32u8] + msg
    }
}

/// What [`Diagnostic::report`] renders when the span runs past the end
/// of the source: the last line, then a caret pointing just after it
/// and the message.
pub open spec fn report_out_of_bounds_sp(src: Seq<u8>, msg: Seq<u8>, span: Span) -> Seq<u8> {
    let start = line_start_sp(src, span.lo as int);
    let end = line_end_sp(src, span.hi as int);
    seg(src, start, end) + seq![10u8] + byte_repeat(32, src.len() - start) + seq![94u8, 32u8] + msg
}

/// What [`Diagnostic::report`] renders.
pub open spec fn report_sp(src: Seq<u8>, msg: Seq<u8>, span: Span) -> Seq<u8> {
    if span.hi > src.len() {
        report_out_of_bounds_sp(src, msg, span)
    } else {
        report_in_bounds_sp(src, msg, span)
    }
}

/// A diagnostic: the source it points into, a message, and the span the
/// message is about.
pub struct Diagnostic {
    pub src: Vec<u8>,
    pub msg: Vec<u8>,
    pub span: Span,
}

impl Diagnostic {
    /// A diagnostic for `span` of `src` with message `msg`.
    pub fn new(src: &Vec<u8>, msg: Vec<u8>, span: Span) -> (d: Diagnostic)
        ensures
            d.src@ == src@,
            d.msg@ == msg@,
            d.span == span,
    {
        Diagnostic { src: copy_bytes(src), msg, span }
    }

    /// Render the caret-annotated report: the source line the span lies
    /// on, and a line pointing at the span with the message.  A span
    /// past the end of the source degrades to pointing at end-of-source
    /// rather than failing.  The rendering is returned, not printed.
    pub fn report(&self) -> (r: Vec<u8>)
        ensures
            r@ == report_sp(self.src@, self.msg@, self.span),
    {
        if self.span.hi > self.src.len() {
            self.report_out_of_bounds()
        } else {
            self.report_in_bounds()
        }
    }

    /// The single- or multi-line rendering for an in-bounds span.
    fn report_in_bounds(&self) -> (r: Vec<u8>)
        ensures
            r@ == report_in_bounds_sp(self.src@, self.msg@, self.span),
    {
        let start = self.line_start(self.span.lo);
        let end = self.line_end(self.span.hi);
        let srclen = self.src.len();
        proof {
            let src = self.src@;
            lemma_count_nl_bounds(src, start as int, end as int);
            if start < end && end == srclen {
                let f = if (self.span.hi as int) < src.len() {
                    self.span.hi as int
                } else {
                    src.len() - 1
                };
                lemma_find_nl_props(src, f);
                assert(src[src.len() - 1] != 10);
                lemma_count_nl_last(src, start as int, end as int);
                lemma_count_nl_bounds(src, start as int, end as int - 1);
                assert(count_nl(src, start as int, end as int) < usize::MAX);
            } else if start < end {
                assert(end < srclen);
                assert(count_nl(src, start as int, end as int) <= end - start);
                assert(count_nl(src, start as int, end as int) < usize::MAX);
            } else {
                assert(count_nl(src, start as int, end as int) == 0);
            }
        }
        let line_count = self.line_count(start, end);
        let mut buf: Vec<u8> = Vec::new();
        if start <= end {
            let piece = slice_bytes(&self.src, start, end);
            push_all(&mut buf, piece.as_slice());
        }
        proof {
            assert(buf@ =~= seg(self.src@, start as int, end as int));
        }
        buf.push(10);
        if line_count == 1 {
            if start <= self.span.lo {
                push_repeat(&mut buf, 32, self.span.lo - start);
            }
            proof {
                assert(byte_repeat(32, self.span.lo - start) =~= Seq::new(
                    (if self.span.lo >= start {
                        self.span.lo - start
                    } else {
                        0
                    }) as nat,
                    |i: int| 32u8,
                ));
            }
            if self.span.lo <= self.span.hi {
                push_repeat(&mut buf, 94, self.span.hi - self.span.lo);
            }
            proof {
                assert(byte_repeat(94, self.span.hi - self.span.lo) =~= Seq::new(
                    (if self.span.hi >= self.span.lo {
                        self.span.hi - self.span.lo
                    } else {
                        0
                    }) as nat,
                    |i: int| 94u8,
                ));
            }
            buf.push(32);
            push_all(&mut buf, self.msg.as_slice());
            proof {
                assert(buf@ =~= report_in_bounds_sp(self.src@, self.msg@, self.span));
            }
        } else {
            buf.push(32);
            push_all(&mut buf, self.msg.as_slice());
            proof {
                assert(buf@ =~= report_in_bounds_sp(self.src@, self.msg@, self.span));
            }
        }
        buf
    }

    /// The rendering for a span past the end of the source.
    fn report_out_of_bounds(&self) -> (r: Vec<u8>)
        ensures
            r@ == report_out_of_bounds_sp(self.src@, self.msg@, self.span),
    {
        let start = self.line_start(self.span.lo);
        let end = self.line_end(self.span.hi);
        let mut buf: Vec<u8> = Vec::new();
        if start <= end {
            let piece = slice_bytes(&self.src, start, end);
            push_all(&mut buf, piece.as_slice());
        }
        proof {
            assert(buf@ =~= seg(self.src@, start as int, end as int));
        }
        buf.push(10);
        if start <= self.src.len() {
            push_repeat(&mut buf, 32, self.src.len() - start);
        }
        proof {
            assert(byte_repeat(32, self.src@.len() - start) =~= Seq::new(
                (if self.src@.len() >= start {
                    self.src@.len() - start
                } else {
                    0
                }) as nat,
                |i: int| 32u8,
            ));
        }
        buf.push(94);
        buf.push(32);
        push_all(&mut buf, self.msg.as_slice());
        proof {
            assert(buf@ =~= report_out_of_bounds_sp(self.src@, self.msg@, self.span));
        }
        buf
    }

    /// Where the line containing byte offset `from` starts.
    fn line_start(&self, from: usize) -> (r: usize)
        ensures
            r as int == line_start_sp(self.src@, from as int),
            r <= self.src@.len(),
    {
        if self.src.len() == 0 {
            return 0;
        }
        let f = if from < self.src.len() {
            from
        } else {
            self.src.len() - 1
        };
        let mut i: usize = f;
        while i > 0
            invariant
                i <= f < self.src@.len(),
                f as int == (if (from as int) < self.src@.len() {
                    from as int
                } else {
                    self.src@.len() - 1
                }),
                rfind_nl(self.src@, f as int) == rfind_nl(self.src@, i as int),
            decreases i,
        {
            if self.src[i - 1] == 10 {
                proof {
                    assert(rfind_nl(self.src@, i as int) == i as int);
                    assert(line_start_sp(self.src@, from as int) == rfind_nl(
                        self.src@,
                        f as int,
                    ));
                }
                return i;
            }
            i = i - 1;
        }
        proof {
            assert(rfind_nl(self.src@, 0int) == 0int);
            assert(line_start_sp(self.src@, from as int) == rfind_nl(self.src@, f as int));
        }
        0
    }

    /// Where the line containing byte offset `from` ends.
    fn line_end(&self, from: usize) -> (r: usize)
        ensures
            r as int == line_end_sp(self.src@, from as int),
            r <= self.src@.len(),
    {
        if self.src.len() == 0 {
            return 0;
        }
        let f = if from < self.src.len() {
            from
        } else {
            self.src.len() - 1
        };
        let mut i: usize = f;
        while i < self.src.len()
            invariant
                f <= i <= self.src@.len(),
                f < self.src@.len(),
                f as int == (if (from as int) < self.src@.len() {
                    from as int
                } else {
                    self.src@.len() - 1
                }),
                find_nl(self.src@, f as int) == find_nl(self.src@, i as int),
            decreases self.src@.len() - i,
        {
            if self.src[i] == 10 {
                proof {
                    assert(find_nl(self.src@, i as int) == i as int);
                    assert(line_end_sp(self.src@, from as int) == find_nl(self.src@, f as int));
                }
                return i;
            }
            i = i + 1;
        }
        proof {
            assert(find_nl(self.src@, self.src@.len() as int) == self.src@.len());
            assert(line_end_sp(self.src@, from as int) == find_nl(self.src@, f as int));
        }
        self.src.len()
    }

    /// How many lines `src[start..end]` spans: its newline count plus
    /// one.
    fn line_count(&self, start: usize, end: usize) -> (r: usize)
        requires
            end <= self.src@.len(),
            count_nl(self.src@, start as int, end as int) < usize::MAX,
        ensures
            r as int == count_nl(self.src@, start as int, end as int) + 1,
    {
        let mut n: usize = 0;
        let mut i: usize = if start < end {
            start
        } else {
            end
        };
        proof {
            lemma_count_nl_bounds(self.src@, start as int, end as int);
            assert(count_nl(self.src@, end as int, end as int) == 0);
        }
        while i < end
            invariant
                i <= end <= self.src@.len(),
                count_nl(self.src@, start as int, end as int) == n + count_nl(
                    self.src@,
                    i as int,
                    end as int,
                ),
                count_nl(self.src@, start as int, end as int) < usize::MAX,
                n <= count_nl(self.src@, start as int, end as int),
            decreases end - i,
        {
            proof {
                lemma_count_nl_bounds(self.src@, i as int, end as int);
                lemma_count_nl_bounds(self.src@, i as int + 1, end as int);
            }
            if self.src[i] == 10 {
                n = n + 1;
            }
            i = i + 1;
        }
        n + 1
    }
}

/// The first-newline search starts where it is asked, ends at a newline
/// or the end, and passes over no newline.
proof fn lemma_find_nl_props(s: Seq<u8>, i: int)
    requires
        0 <= i <= s.len(),
    ensures
        i <= find_nl(s, i) <= s.len(),
        find_nl(s, i) < s.len() ==> s[find_nl(s, i)] == 10,
        forall|j: int| i <= j < find_nl(s, i) ==> s[j] != 10,
    decreases s.len() - i,
{
    if 0 <= i < s.len() && s[i] != 10 {
        lemma_find_nl_props(s, i + 1);
    }
}

/// Splitting off a final non-newline byte does not change the count.
proof fn lemma_count_nl_last(s: Seq<u8>, lo: int, hi: int)
    requires
        0 <= lo,
        lo < hi <= s.len(),
        s[hi - 1] != 10,
    ensures
        count_nl(s, lo, hi) == count_nl(s, lo, hi - 1),
    decreases hi - lo,
{
    if lo < hi - 1 {
        lemma_count_nl_last(s, lo + 1, hi);
        assert(count_nl(s, lo, hi) == (if s[lo] == 10 {
            1int
        } else {
            0int
        }) + count_nl(s, lo + 1, hi));
        assert(count_nl(s, lo, hi - 1) == (if s[lo] == 10 {
            1int
        } else {
            0int
        }) + count_nl(s, lo + 1, hi - 1));
    } else {
        assert(count_nl(s, lo, hi) == (if s[lo] == 10 {
            1int
        } else {
            0int
        }) + count_nl(s, lo + 1, hi));
        assert(count_nl(s, lo + 1, hi) == 0);
        assert(count_nl(s, lo, hi - 1) == 0);
    }
}

/// A newline count is between zero and the width of its range.
proof fn lemma_count_nl_bounds(s: Seq<u8>, lo: int, hi: int)
    ensures
        0 <= count_nl(s, lo, hi),
        count_nl(s, lo, hi) <= (if hi >= lo {
            hi - lo
        } else {
            0
        }),
    decreases hi - lo,
{
    if lo < hi && 0 <= lo && hi <= s.len() {
        lemma_count_nl_bounds(s, lo + 1, hi);
    }
}

} // verus!
