//! A minimal named-variable surface tree: the shape a parser for the
//! boolean fragment would build before translating names to de Bruijn
//! indices.

use vstd::prelude::*;

verus! {

/// A one-argument function literal over the surface tree.
#[derive(Debug)]
pub struct Lambda {
    pub arg: Vec<u8>,
    pub body: Expr,
}

/// A surface expression of the boolean fragment.
#[derive(Debug)]
pub enum Expr {
    True,
    False,
    If { cond: Box<Expr>, yes: Box<Expr>, no: Box<Expr> },
}

} // verus!
