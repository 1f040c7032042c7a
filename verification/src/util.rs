//! Small byte-string helpers shared across the crate.

use vstd::prelude::*;

verus! {

/// A byte-for-byte copy of `v`.
pub(crate) fn copy_bytes(v: &Vec<u8>) -> (r: Vec<u8>)
    ensures
        r@ == v@,
{
    slice_bytes(v, 0, v.len())
}

/// A byte-for-byte copy of `src[lo..hi]`.
pub(crate) fn slice_bytes(src: &Vec<u8>, lo: usize, hi: usize) -> (r: Vec<u8>)
    requires
        lo <= hi,
        hi <= src@.len(),
    ensures
        r@ == src@.subrange(lo as int, hi as int),
{
    let mut r: Vec<u8> = Vec::new();
    let mut i: usize = lo;
    while i < hi
        invariant
            lo <= i <= hi <= src@.len(),
            r@ == src@.subrange(lo as int, i as int),
        decreases hi - i,
    {
        r.push(src[i]);
        i = i + 1;
        proof {
            assert(r@ =~= src@.subrange(lo as int, i as int));
        }
    }
    proof {
        assert(r@ =~= src@.subrange(lo as int, hi as int));
    }
    r
}

/// Whether `a` and `b` hold the same bytes.
pub(crate) fn bytes_eq(a: &Vec<u8>, b: &Vec<u8>) -> (r: bool)
    ensures
        r == (a@ == b@),
{
    if a.len() != b.len() {
        proof {
            assert(a@ != b@);
        }
        return false;
    }
    let mut i: usize = 0;
    while i < a.len()
        invariant
            i <= a.len(),
            a.len() == b.len(),
            forall|j: int| 0 <= j < i ==> a@[j] == b@[j],
        decreases a.len() - i,
    {
        if a[i] != b[i] {
            return false;
        }
        i = i + 1;
    }
    proof {
        assert(a@ =~= b@);
    }
    true
}

/// Append every byte of `s` to `buf`.
pub(crate) fn push_all(buf: &mut Vec<u8>, s: &[u8])
    ensures
        final(buf)@ == old(buf)@ + s@,
{
    let mut i: usize = 0;
    while i < s.len()
        invariant
            i <= s@.len(),
            buf@ == old(buf)@ + s@.subrange(0, i as int),
        decreases s@.len() - i,
    {
        buf.push(s[i]);
        i = i + 1;
        proof {
            assert(buf@ =~= old(buf)@ + s@.subrange(0, i as int));
        }
    }
    proof {
        assert(buf@ =~= old(buf)@ + s@);
    }
}

/// Append the bytes of the ASCII literal `s` to `buf`.
pub(crate) fn push_lit(buf: &mut Vec<u8>, s: &str)
    requires
        s.is_ascii(),
    ensures
        final(buf)@ == old(buf)@ + Seq::new(s@.len(), |i: int| s@[i] as u8),
{
    proof {
        vstd::string::is_ascii_spec_bytes(s);
    }
    let bs = s.as_bytes();
    push_all(buf, bs);
}

/// Append `n` copies of the byte `b` to `buf`.
pub(crate) fn push_repeat(buf: &mut Vec<u8>, b: u8, n: usize)
    ensures
        final(buf)@ == old(buf)@ + Seq::new(n as nat, |i: int| b),
{
    let mut i: usize = 0;
    while i < n
        invariant
            i <= n,
            buf@ == old(buf)@ + Seq::new(i as nat, |j: int| b),
        decreases n - i,
    {
        buf.push(b);
        i = i + 1;
        proof {
            assert(buf@ =~= old(buf)@ + Seq::new(i as nat, |j: int| b));
        }
    }
    proof {
        assert(buf@ =~= old(buf)@ + Seq::new(n as nat, |j: int| b));
    }
}

} // verus!
