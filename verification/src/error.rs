//! The failures of type checking.
use vstd::prelude::*;

verus! {

/// Failures of kind checking, unification and type checking.
#[derive(Debug, Clone, PartialEq, Eq)]
pub enum TypeError {
    /// Two types have different shapes or constants, or a variable would
    /// have to contain itself.
    CantUnify,
    /// A surface type has another kind than the one asked for.
    KindMismatch,
    /// The type inferred for a term does not unify with the expected one.
    TypeMismatch,
    /// The function position of an application is neither an arrow nor an
    /// unresolved variable.
    NotAFunction,
}

} // verus!
