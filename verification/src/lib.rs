//! Type inference for a small lambda calculus with let-polymorphism and
//! kind-checked type constructors.
use vstd::prelude::*;

pub mod ast;
pub mod bidi;
pub mod check;
pub mod env;
pub mod error;
pub mod hm;
pub mod kinds;
pub mod laws;
pub mod store;

pub use bidi::{check, infer, infer_and_generalize};
pub use check::{Context, Hole, Kind, Ty, TyScheme};
pub use error::TypeError;
