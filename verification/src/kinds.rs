//! Kinds of surface types, and their elaboration into internal types.
use vstd::prelude::*;
use vstd::pervasive::unreached;
use crate::ast;
use crate::check::{Context, ContextView, Kind, Ty};
use crate::error::TypeError;
use crate::store::ty_in;

verus! {

/// The internal type and the kind of the surface type `e`, or the first
/// mismatch met from left to right. A name stands for what the context holds
/// for it; both sides of an arrow are of kind `KStar`, and so is the arrow;
/// the functor of an application has a kind `KFun(a, b)`, its argument is of
/// kind `a`, and the application is of kind `b`, which it carries.
pub open spec fn infer_spec(ctx: ContextView, e: ast::Ty) -> Result<(Ty, Kind), TypeError>
    decreases e, 0int,
{
    match e {
        ast::Ty::Fun(a, b) => match check_spec(ctx, *a, Kind::KStar) {
            Err(err) => Err(err),
            Ok(dom) => match check_spec(ctx, *b, Kind::KStar) {
                Err(err) => Err(err),
                Ok(cod) => Ok((Ty::TFun(Box::new(dom), Box::new(cod)), Kind::KStar)),
            },
        },
        ast::Ty::Named(name) => Ok((ctx.tyvar_values[name@], ctx.tyvar_kinds[name@])),
        ast::Ty::App(f, x) => match infer_spec(ctx, *f) {
            Err(err) => Err(err),
            Ok((functor, Kind::KFun(a, b))) => match check_spec(ctx, *x, *a) {
                Err(err) => Err(err),
                Ok(arg) => Ok((Ty::TApp(*b, Box::new(functor), Box::new(arg)), *b)),
            },
            Ok((_, Kind::KStar)) => arbitrary(),
        },
    }
}

/// The internal type of `e` where its kind is `kind`, `KindMismatch` where
/// it is another, and the failure of `infer_spec` where there is one.
pub open spec fn check_spec(ctx: ContextView, e: ast::Ty, kind: Kind) -> Result<Ty, TypeError>
    decreases e, 1int,
{
    match infer_spec(ctx, e) {
        Err(err) => Err(err),
        Ok((ty, inferred)) => if kind == inferred {
            Ok(ty)
        } else {
            Err(TypeError::KindMismatch)
        },
    }
}

/// Every name of `e` is bound in the context, to a kind and to a type, and
/// every functor whose kind is found has the kind of a constructor.
pub open spec fn well_scoped(ctx: ContextView, e: ast::Ty) -> bool
    decreases e,
{
    match e {
        ast::Ty::Fun(a, b) => well_scoped(ctx, *a) && well_scoped(ctx, *b),
        ast::Ty::Named(name) => ctx.tyvar_values.contains_key(name@) && ctx.tyvar_kinds.contains_key(
            name@,
        ),
        ast::Ty::App(f, x) => well_scoped(ctx, *f) && well_scoped(ctx, *x) && (infer_spec(
            ctx,
            *f,
        ) matches Ok((_, k)) ==> k is KFun),
    }
}

/// Kinds unify exactly when they are equal.
pub fn unify(a: &Kind, b: &Kind) -> (res: Result<(), TypeError>)
    ensures
        res == if *a == *b {
            Ok::<(), TypeError>(())
        } else {
            Err(TypeError::CantUnify)
        },
{
    if a != b {
        Err(TypeError::CantUnify)
    } else {
        Ok(())
    }
}

/// Elaborates `e` and requires that its kind is `kind`.
pub fn check(ctx: &Context, e: &ast::Ty, kind: &Kind) -> (res: Result<Ty, TypeError>)
    requires
        well_scoped(ctx@, *e),
    ensures
        res == check_spec(ctx@, *e, *kind),
    decreases *e, 1int,
{
    match infer(ctx, e) {
        Err(err) => Err(err),
        Ok((ty, inferred)) => match unify(kind, &inferred) {
            Ok(_) => Ok(ty),
            Err(_) => Err(TypeError::KindMismatch),
        },
    }
}

/// Elaborates `e` into an internal type and finds its kind.
pub fn infer(ctx: &Context, e: &ast::Ty) -> (res: Result<(Ty, Kind), TypeError>)
    requires
        well_scoped(ctx@, *e),
    ensures
        res == infer_spec(ctx@, *e),
    decreases *e, 0int,
{
    match e {
        ast::Ty::Fun(a, b) => {
            let a = match check(ctx, a, &Kind::KStar) {
                Ok(ty) => ty,
                Err(err) => {
                    return Err(err);
                },
            };
            let b = match check(ctx, b, &Kind::KStar) {
                Ok(ty) => ty,
                Err(err) => {
                    return Err(err);
                },
            };
            Ok((Ty::TFun(Box::new(a), Box::new(b)), Kind::KStar))
        },
        ast::Ty::Named(name) => {
            let ty = ctx.tyvar_values.get(name).unwrap();
            let kind = ctx.tyvar_kinds.get(name).unwrap();
            Ok((ty.clone(), kind.clone()))
        },
        ast::Ty::App(f, x) => match infer(ctx, f) {
            Ok((f, Kind::KFun(a, b))) => {
                let x = match check(ctx, x, &a) {
                    Ok(ty) => ty,
                    Err(err) => {
                        return Err(err);
                    },
                };
                Ok((Ty::TApp((*b).clone(), Box::new(f), Box::new(x)), *b))
            },
            Ok((_, Kind::KStar)) => unreached(),
            Err(err) => Err(err),
        },
    }
}

/// An elaborated type names only cells that the types of the context name.
pub proof fn lemma_infer_in(ctx: ContextView, e: ast::Ty, n: nat)
    requires
        well_scoped(ctx, e),
        forall|name: Seq<char>| #[trigger]
            ctx.tyvar_values.contains_key(name) ==> ty_in(ctx.tyvar_values[name], n),
    ensures
        infer_spec(ctx, e) matches Ok((ty, _)) ==> ty_in(ty, n),
    decreases e,
{
    match e {
        ast::Ty::Fun(a, b) => {
            lemma_infer_in(ctx, *a, n);
            lemma_infer_in(ctx, *b, n);
            assert(check_spec(ctx, *a, Kind::KStar) matches Ok(ty) ==> ty_in(ty, n));
            assert(check_spec(ctx, *b, Kind::KStar) matches Ok(ty) ==> ty_in(ty, n));
        },
        ast::Ty::Named(_) => {},
        ast::Ty::App(f, x) => {
            lemma_infer_in(ctx, *f, n);
            lemma_infer_in(ctx, *x, n);
            if let Ok((_, Kind::KFun(a, _))) = infer_spec(ctx, *f) {
                assert(check_spec(ctx, *x, *a) matches Ok(ty) ==> ty_in(ty, n));
            }
        },
    }
}

/// A checked type names only cells that the types of the context name.
pub proof fn lemma_check_in(ctx: ContextView, e: ast::Ty, kind: Kind, n: nat)
    requires
        well_scoped(ctx, e),
        forall|name: Seq<char>| #[trigger]
            ctx.tyvar_values.contains_key(name) ==> ty_in(ctx.tyvar_values[name], n),
    ensures
        check_spec(ctx, e, kind) matches Ok(ty) ==> ty_in(ty, n),
{
    lemma_infer_in(ctx, e, n);
}

/// Kind checking reads nothing of a context but what it holds for the
/// type names.
pub proof fn lemma_same_type_names(ctx: ContextView, other: ContextView, e: ast::Ty)
    requires
        ctx.tyvar_kinds == other.tyvar_kinds,
        ctx.tyvar_values == other.tyvar_values,
    ensures
        infer_spec(ctx, e) == infer_spec(other, e),
        well_scoped(ctx, e) == well_scoped(other, e),
    decreases e,
{
    match e {
        ast::Ty::Fun(a, b) => {
            lemma_same_type_names(ctx, other, *a);
            lemma_same_type_names(ctx, other, *b);
            assert(check_spec(ctx, *a, Kind::KStar) == check_spec(other, *a, Kind::KStar));
            assert(check_spec(ctx, *b, Kind::KStar) == check_spec(other, *b, Kind::KStar));
        },
        ast::Ty::Named(_) => {},
        ast::Ty::App(f, x) => {
            lemma_same_type_names(ctx, other, *f);
            lemma_same_type_names(ctx, other, *x);
            if let Ok((_, Kind::KFun(a, _))) = infer_spec(ctx, *f) {
                assert(check_spec(ctx, *x, *a) == check_spec(other, *x, *a));
            }
        },
    }
}

} // verus!
