//! Kinds, internal types, the states of a unification variable, type
//! schemes and contexts.
use vstd::prelude::*;
use crate::env::{Duplicate, Env};

verus! {

/// Identity of a nullary type constructor.
pub type TypeId = u32;

/// The kind of a type: `KStar` for ordinary types, `KFun` for constructors.
#[derive(Debug)]
pub enum Kind {
    KStar,
    KFun(Box<Kind>, Box<Kind>),
}

/// An internal type. `TUVar` holds the handle of a cell in a `Store`: two
/// occurrences are the same variable exactly when their handles are equal.
#[derive(PartialEq, Eq, Debug)]
pub enum Ty {
    TCon(TypeId),
    TFun(Box<Ty>, Box<Ty>),
    TApp(Kind, Box<Ty>, Box<Ty>),
    TUVar(usize),
}

/// The state of one unification variable.
#[derive(PartialEq, Eq, Debug)]
pub enum Hole {
    Filled(Box<Ty>),
    Empty { lvl: u32 },
    Generalized(usize),
}

/// A type with `num_vars` bound variables, written in `ty` as cells that
/// hold `Generalized(i)`.
#[derive(PartialEq, Eq, Debug)]
pub struct TyScheme {
    pub num_vars: usize,
    pub ty: Box<Ty>,
}

impl PartialEq for Kind {
    fn eq(&self, other: &Self) -> (res: bool)
        decreases *self,
    {
        match (self, other) {
            (Kind::KStar, Kind::KStar) => true,
            (Kind::KFun(a, b), Kind::KFun(c, d)) => (**a).eq(&**c) && (**b).eq(&**d),
            _ => false,
        }
    }
}

impl Eq for Kind {

}

impl vstd::std_specs::cmp::PartialEqSpecImpl for Kind {
    open spec fn obeys_eq_spec() -> bool {
        true
    }

    open spec fn eq_spec(&self, other: &Self) -> bool {
        *self == *other
    }
}

impl Clone for Kind {
    fn clone(&self) -> (res: Self)
        ensures
            res == *self,
        decreases *self,
    {
        match self {
            Kind::KStar => Kind::KStar,
            Kind::KFun(a, b) => Kind::KFun(Box::new((**a).clone()), Box::new((**b).clone())),
        }
    }
}

impl Clone for Ty {
    fn clone(&self) -> (res: Self)
        ensures
            res == *self,
        decreases *self,
    {
        match self {
            Ty::TCon(id) => Ty::TCon(*id),
            Ty::TFun(a, b) => Ty::TFun(Box::new((**a).clone()), Box::new((**b).clone())),
            Ty::TApp(k, f, x) => Ty::TApp(
                k.clone(),
                Box::new((**f).clone()),
                Box::new((**x).clone()),
            ),
            Ty::TUVar(h) => Ty::TUVar(*h),
        }
    }
}

impl Clone for Hole {
    fn clone(&self) -> (res: Self)
        ensures
            res == *self,
    {
        match self {
            Hole::Filled(t) => Hole::Filled(Box::new((**t).clone())),
            Hole::Empty { lvl } => Hole::Empty { lvl: *lvl },
            Hole::Generalized(i) => Hole::Generalized(*i),
        }
    }
}

impl Clone for TyScheme {
    fn clone(&self) -> (res: Self)
        ensures
            res == *self,
    {
        TyScheme { num_vars: self.num_vars, ty: Box::new((*self.ty).clone()) }
    }
}

impl Duplicate for Kind {
    fn duplicate(&self) -> (res: Self) {
        self.clone()
    }
}

impl Duplicate for Ty {
    fn duplicate(&self) -> (res: Self) {
        self.clone()
    }
}

impl Duplicate for TyScheme {
    fn duplicate(&self) -> (res: Self) {
        self.clone()
    }
}

/// What is in scope: the nesting depth of `let`, the schemes of the term
/// variables, and the kinds and the internal types of the type names.
#[derive(Debug)]
pub struct Context {
    pub lvl: u32,
    pub var_types: Env<TyScheme>,
    pub tyvar_kinds: Env<Kind>,
    pub tyvar_values: Env<Ty>,
}

/// A context as plain maps.
pub struct ContextView {
    pub lvl: u32,
    pub var_types: Map<Seq<char>, TyScheme>,
    pub tyvar_kinds: Map<Seq<char>, Kind>,
    pub tyvar_values: Map<Seq<char>, Ty>,
}

impl ContextView {
    /// This context with `name` bound to `scheme`.
    pub open spec fn bind(self, name: Seq<char>, scheme: TyScheme) -> ContextView {
        ContextView { var_types: self.var_types.insert(name, scheme), ..self }
    }

    /// This context at nesting depth `lvl`.
    pub open spec fn at_level(self, lvl: u32) -> ContextView {
        ContextView { lvl, ..self }
    }
}

impl View for Context {
    type V = ContextView;

    open spec fn view(&self) -> ContextView {
        ContextView {
            lvl: self.lvl,
            var_types: self.var_types@,
            tyvar_kinds: self.tyvar_kinds@,
            tyvar_values: self.tyvar_values@,
        }
    }
}

impl Context {
    /// A new context that binds `name` to `scheme` and is otherwise this one,
    /// which stays as it is.
    pub fn bind(&self, name: &String, scheme: TyScheme) -> (res: Context)
        ensures
            res@ == self@.bind(name@, scheme),
    {
        let mut var_types = self.var_types.duplicate();
        var_types.insert(name.clone(), scheme);
        Context {
            lvl: self.lvl,
            var_types,
            tyvar_kinds: self.tyvar_kinds.duplicate(),
            tyvar_values: self.tyvar_values.duplicate(),
        }
    }

    /// A new context at nesting depth `lvl` with the bindings of this one.
    pub fn at_level(&self, lvl: u32) -> (res: Context)
        ensures
            res@ == self@.at_level(lvl),
    {
        Context {
            lvl,
            var_types: self.var_types.duplicate(),
            tyvar_kinds: self.tyvar_kinds.duplicate(),
            tyvar_values: self.tyvar_values.duplicate(),
        }
    }
}

} // verus!
