//! The surface syntax: types and terms as a parser hands them over.
use vstd::prelude::*;

verus! {

/// A type as written in the source.
#[derive(Debug, PartialEq, Eq)]
pub enum Ty {
    Fun(Box<Ty>, Box<Ty>),
    Named(String),
    App(Box<Ty>, Box<Ty>),
}

/// A term as written in the source.
#[derive(Debug, PartialEq, Eq)]
pub enum Exp {
    Annote(Box<Exp>, Box<Ty>),
    Var(String),
    App(Box<Exp>, Box<Exp>),
    Lam(String, Box<Exp>),
    Let(String, Box<Exp>, Box<Exp>),
}

} // verus!
