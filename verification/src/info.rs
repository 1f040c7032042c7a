//! A plain byte range, used where a source position is carried without
//! a line number.

use vstd::prelude::*;

verus! {

/// A half-open byte range `lo..hi` into the source.
#[derive(Clone, Copy, Debug, PartialEq, Eq, Structural)]
pub struct Info {
    pub lo: usize,
    pub hi: usize,
}

impl Info {
    /// The placeholder range `0..0`.
    pub fn dummy() -> (r: Info)
        ensures
            r == (Info { lo: 0, hi: 0 }),
    {
        Info { lo: 0, hi: 0 }
    }
}

} // verus!
