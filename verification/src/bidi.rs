//! Bidirectional typing of terms: checking against an expected type and
//! inferring a type, with generalization at `let`.
use vstd::prelude::*;
use crate::ast::Exp;
use crate::check::{Context, ContextView, Hole, Kind, Ty, TyScheme};
use crate::error::TypeError;
use crate::hm::{
    generalize, generalize_spec, instantiate, instantiate_spec, lemma_bind_len, unify, unify_spec,
};
use crate::kinds;
use crate::store::{
    lemma_fill_well_formed, lemma_ty_in_grows, reaches, ty_in, well_formed, Store,
};

verus! {

/// The scheme without bound variables whose type is `t`.
pub open spec fn mono(t: Ty) -> TyScheme {
    TyScheme { num_vars: 0, ty: Box::new(t) }
}

/// The cells after the application of a function whose type is the unresolved
/// variable `cell` of level `lvl`: two new variables of that level, for the
/// argument and for the result, and `cell` filled with the arrow between them.
pub open spec fn arrow_cells(cells: Seq<Hole>, cell: int, lvl: u32) -> Seq<Hole> {
    cells.push(Hole::Empty { lvl }).push(Hole::Empty { lvl }).update(
        cell,
        Hole::Filled(
            Box::new(
                Ty::TFun(
                    Box::new(Ty::TUVar(cells.len() as usize)),
                    Box::new(Ty::TUVar((cells.len() + 1) as usize)),
                ),
            ),
        ),
    )
}

/// What checking makes of an inferred type: it is unified with the expected
/// type `ty`, and a failure of that unification is a `TypeMismatch`.
pub open spec fn settle(inferred: (Seq<Hole>, Result<Ty, TypeError>), ty: Ty) -> (
    Seq<Hole>,
    Result<(), TypeError>,
) {
    match inferred.1 {
        Err(err) => (inferred.0, Err(err)),
        Ok(actual) => {
            let unified = unify_spec(inferred.0, actual, ty);
            if unified.1 is Ok {
                (unified.0, Ok(()))
            } else {
                (unified.0, Err(TypeError::TypeMismatch))
            }
        },
    }
}

/// Inference as a function of the cells, the context and the term: the cells
/// after it, and the type of the term or the first failure.
pub open spec fn infer_spec(cells: Seq<Hole>, ctx: ContextView, e: Exp) -> (
    Seq<Hole>,
    Result<Ty, TypeError>,
)
    decreases e, 0int,
{
    match e {
        Exp::Var(name) => {
            let made = instantiate_spec(cells, ctx.lvl, ctx.var_types[name@]);
            (made.0, Ok(made.1))
        },
        Exp::Annote(inner, annotation) => match kinds::check_spec(ctx, *annotation, Kind::KStar) {
            Err(err) => (cells, Err(err)),
            Ok(ty) => {
                let checked = check_spec(cells, ctx, *inner, ty);
                match checked.1 {
                    Err(err) => (checked.0, Err(err)),
                    Ok(_) => (checked.0, Ok(ty)),
                }
            },
        },
        Exp::App(f, x) => {
            let fun = infer_spec(cells, ctx, *f);
            match fun.1 {
                Err(err) => (fun.0, Err(err)),
                Ok(Ty::TFun(a, b)) => {
                    let checked = check_spec(fun.0, ctx, *x, *a);
                    match checked.1 {
                        Err(err) => (checked.0, Err(err)),
                        Ok(_) => (checked.0, Ok(*b)),
                    }
                },
                Ok(Ty::TUVar(cell)) => match fun.0[cell as int] {
                    Hole::Empty { lvl } => {
                        let checked = check_spec(
                            arrow_cells(fun.0, cell as int, lvl),
                            ctx,
                            *x,
                            Ty::TUVar(fun.0.len() as usize),
                        );
                        match checked.1 {
                            Err(err) => (checked.0, Err(err)),
                            Ok(_) => (checked.0, Ok(Ty::TUVar((fun.0.len() + 1) as usize))),
                        }
                    },
                    _ => (fun.0, Err(TypeError::NotAFunction)),
                },
                Ok(_) => (fun.0, Err(TypeError::NotAFunction)),
            }
        },
        Exp::Lam(name, body) => {
            let param = Ty::TUVar(cells.len() as usize);
            let result = infer_spec(
                cells.push(Hole::Empty { lvl: ctx.lvl }),
                ctx.bind(name@, mono(param)),
                *body,
            );
            match result.1 {
                Err(err) => (result.0, Err(err)),
                Ok(ty) => (result.0, Ok(Ty::TFun(Box::new(param), Box::new(ty)))),
            }
        },
        Exp::Let(x, value, body) => {
            let bound = infer_and_generalize_spec(cells, ctx, *value);
            match bound.1 {
                Err(err) => (bound.0, Err(err)),
                Ok(scheme) => infer_spec(bound.0, ctx.bind(x@, scheme), *body),
            }
        },
    }
}

/// Checking as a function of the cells, the context, the term and the
/// expected type: the cells after it, and success or the first failure.
pub open spec fn check_spec(cells: Seq<Hole>, ctx: ContextView, e: Exp, ty: Ty) -> (
    Seq<Hole>,
    Result<(), TypeError>,
)
    decreases e, 1int,
{
    match e {
        Exp::Lam(name, body) => match ty {
            Ty::TFun(a, b) => check_spec(cells, ctx.bind(name@, mono(*a)), *body, *b),
            _ => settle(infer_spec(cells, ctx, e), ty),
        },
        Exp::Let(x, value, body) => {
            let bound = infer_and_generalize_spec(cells, ctx, *value);
            match bound.1 {
                Err(err) => (bound.0, Err(err)),
                Ok(scheme) => check_spec(bound.0, ctx.bind(x@, scheme), *body, ty),
            }
        },
        _ => settle(infer_spec(cells, ctx, e), ty),
    }
}

/// The scheme of a `let`-bound term: its type is inferred one level deeper
/// and generalized at the level of the context.
pub open spec fn infer_and_generalize_spec(cells: Seq<Hole>, ctx: ContextView, e: Exp) -> (
    Seq<Hole>,
    Result<TyScheme, TypeError>,
)
    decreases e, 1int,
{
    let inferred = infer_spec(cells, ctx.at_level((ctx.lvl + 1) as u32), e);
    match inferred.1 {
        Err(err) => (inferred.0, Err(err)),
        Ok(ty) => {
            let closed = generalize_spec(inferred.0, ctx.lvl, ty);
            (closed.0, Ok(closed.1))
        },
    }
}

/// How deep the bound terms of `let` are nested in `e`.
pub open spec fn let_depth(e: Exp) -> nat
    decreases e,
{
    match e {
        Exp::Var(_) => 0,
        Exp::Annote(inner, _) => let_depth(*inner),
        Exp::App(f, x) => if let_depth(*f) >= let_depth(*x) {
            let_depth(*f)
        } else {
            let_depth(*x)
        },
        Exp::Lam(_, body) => let_depth(*body),
        Exp::Let(_, value, body) => if 1 + let_depth(*value) >= let_depth(*body) {
            1 + let_depth(*value)
        } else {
            let_depth(*body)
        },
    }
}

/// Every variable of `e` is bound by `e` itself or is one of `vars`, and
/// every annotation of `e` is well scoped in `ctx`.
pub open spec fn closed(ctx: ContextView, vars: Set<Seq<char>>, e: Exp) -> bool
    decreases e,
{
    match e {
        Exp::Var(name) => vars.contains(name@),
        Exp::Annote(inner, annotation) => kinds::well_scoped(ctx, *annotation) && closed(
            ctx,
            vars,
            *inner,
        ),
        Exp::App(f, x) => closed(ctx, vars, *f) && closed(ctx, vars, *x),
        Exp::Lam(name, body) => closed(ctx, vars.insert(name@), *body),
        Exp::Let(x, value, body) => closed(ctx, vars, *value) && closed(
            ctx,
            vars.insert(x@),
            *body,
        ),
    }
}

/// The types of the context name only the first `n` cells.
pub open spec fn ctx_in(ctx: ContextView, n: nat) -> bool {
    &&& forall|name: Seq<char>| #[trigger]
        ctx.var_types.contains_key(name) ==> ty_in(*ctx.var_types[name].ty, n)
    &&& forall|name: Seq<char>| #[trigger]
        ctx.tyvar_values.contains_key(name) ==> ty_in(ctx.tyvar_values[name], n)
}

/// What a term may be typed in: well-formed cells, a context over them, the
/// names of the term in scope, and levels that fit.
pub open spec fn typable(cells: Seq<Hole>, ctx: ContextView, e: Exp) -> bool {
    &&& well_formed(cells)
    &&& ctx_in(ctx, cells.len())
    &&& closed(ctx, ctx.var_types.dom(), e)
    &&& ctx.lvl + let_depth(e) <= u32::MAX
}

proof fn lemma_ctx_in_grows(ctx: ContextView, n: nat, m: nat)
    requires
        ctx_in(ctx, n),
        n <= m,
    ensures
        ctx_in(ctx, m),
{
    assert forall|name: Seq<char>| #[trigger] ctx.var_types.contains_key(name) implies ty_in(
        *ctx.var_types[name].ty,
        m,
    ) by {
        lemma_ty_in_grows(*ctx.var_types[name].ty, n, m);
    }
    assert forall|name: Seq<char>| #[trigger] ctx.tyvar_values.contains_key(name) implies ty_in(
        ctx.tyvar_values[name],
        m,
    ) by {
        lemma_ty_in_grows(ctx.tyvar_values[name], n, m);
    }
}

/// Whether a term is closed depends on the context only through the type
/// names.
proof fn lemma_closed_same_type_names(
    ctx: ContextView,
    other: ContextView,
    vars: Set<Seq<char>>,
    e: Exp,
)
    requires
        ctx.tyvar_kinds == other.tyvar_kinds,
        ctx.tyvar_values == other.tyvar_values,
    ensures
        closed(ctx, vars, e) == closed(other, vars, e),
    decreases e,
{
    match e {
        Exp::Var(_) => {},
        Exp::Annote(inner, annotation) => {
            kinds::lemma_same_type_names(ctx, other, *annotation);
            lemma_closed_same_type_names(ctx, other, vars, *inner);
        },
        Exp::App(f, x) => {
            lemma_closed_same_type_names(ctx, other, vars, *f);
            lemma_closed_same_type_names(ctx, other, vars, *x);
        },
        Exp::Lam(name, body) => {
            lemma_closed_same_type_names(ctx, other, vars.insert(name@), *body);
        },
        Exp::Let(x, value, body) => {
            lemma_closed_same_type_names(ctx, other, vars, *value);
            lemma_closed_same_type_names(ctx, other, vars.insert(x@), *body);
        },
    }
}

/// A term that is typable under a binder is typable in the context that
/// binds the binder's name.
proof fn lemma_typable_bind(
    cells: Seq<Hole>,
    ctx: ContextView,
    name: Seq<char>,
    scheme: TyScheme,
    body: Exp,
)
    requires
        well_formed(cells),
        ctx_in(ctx, cells.len()),
        ty_in(*scheme.ty, cells.len()),
        closed(ctx, ctx.var_types.dom().insert(name), body),
        ctx.lvl + let_depth(body) <= u32::MAX,
    ensures
        typable(cells, ctx.bind(name, scheme), body),
{
    let bound = ctx.bind(name, scheme);
    assert(bound.var_types.dom() =~= ctx.var_types.dom().insert(name));
    lemma_closed_same_type_names(ctx, bound, bound.var_types.dom(), body);
}

/// Checks `e` against the expected type `ty`, as `check_spec` says. A lambda
/// checked against an arrow binds its parameter to the arrow's domain and
/// checks its body against the codomain; a `let` generalizes the bound term
/// and checks its body; every other term is inferred and its type unified
/// with `ty`, and a failure of that unification is a `TypeMismatch`.
///
/// The term must be closed in the context: a variable that is not bound, a
/// type name that is not bound and a functor that is no constructor are
/// outside of what this function is for.
pub fn check(ctx: &Context, store: &mut Store, e: &Exp, ty: &Ty) -> (res: Result<(), TypeError>)
    requires
        typable(old(store)@, ctx@, *e),
        ty_in(*ty, old(store)@.len()),
    ensures
        final(store).wf(),
        old(store)@.len() <= final(store)@.len(),
        (final(store)@, res) == check_spec(old(store)@, ctx@, *e, *ty),
    decreases *e, 1int,
{
    match e {
        Exp::Lam(name, body) => {
            if let Ty::TFun(a, b) = ty {
                let a_scheme = TyScheme { num_vars: 0, ty: Box::new((**a).clone()) };
                let new_ctx = ctx.bind(name, a_scheme);
                proof {
                    lemma_typable_bind(store@, ctx@, name@, a_scheme, **body);
                }
                return check(&new_ctx, store, body, b);
            }
        },
        Exp::Let(x, value, body) => {
            let x_ty = match infer_and_generalize(ctx, store, value) {
                Ok(scheme) => scheme,
                Err(err) => {
                    return Err(err);
                },
            };
            let new_ctx = ctx.bind(x, x_ty);
            proof {
                lemma_ctx_in_grows(ctx@, old(store)@.len(), store@.len());
                lemma_ty_in_grows(*ty, old(store)@.len(), store@.len());
                lemma_typable_bind(store@, ctx@, x@, x_ty, **body);
            }
            return check(&new_ctx, store, body, ty);
        },
        _ => {},
    }
    let inferred = match infer(ctx, store, e) {
        Ok(actual) => actual,
        Err(err) => {
            return Err(err);
        },
    };
    proof {
        lemma_ty_in_grows(*ty, old(store)@.len(), store@.len());
    }
    if unify(ctx, store, &inferred, ty).is_err() {
        Err(TypeError::TypeMismatch)
    } else {
        Ok(())
    }
}

/// Infers the type of `e`, as `infer_spec` says. A variable is an instance of
/// its scheme at the level of the context; an annotated term is checked
/// against its annotation, which must be of kind `KStar`; a function that is
/// applied has an arrow type, or is an unresolved variable, which is then
/// filled with an arrow between two new variables of its level, anything else
/// is `NotAFunction`; a lambda has an arrow type from a new variable; a `let`
/// generalizes the bound term and infers its body.
///
/// The type that comes back may hold unresolved variables.
pub fn infer(ctx: &Context, store: &mut Store, e: &Exp) -> (res: Result<Ty, TypeError>)
    requires
        typable(old(store)@, ctx@, *e),
    ensures
        final(store).wf(),
        old(store)@.len() <= final(store)@.len(),
        (final(store)@, res) == infer_spec(old(store)@, ctx@, *e),
        res matches Ok(ty) ==> ty_in(ty, final(store)@.len()),
    decreases *e, 0int,
{
    match e {
        Exp::Var(name) => {
            let ty = instantiate(store, ctx.lvl, ctx.var_types.get(name).unwrap());
            Ok(ty)
        },
        Exp::Annote(inner, annotation) => {
            let ty = match kinds::check(ctx, annotation, &Kind::KStar) {
                Ok(ty) => ty,
                Err(err) => {
                    return Err(err);
                },
            };
            proof {
                kinds::lemma_check_in(ctx@, **annotation, Kind::KStar, store@.len());
            }
            match check(ctx, store, inner, &ty) {
                Ok(_) => {
                    proof {
                        lemma_ty_in_grows(ty, old(store)@.len(), store@.len());
                    }
                    Ok(ty)
                },
                Err(err) => Err(err),
            }
        },
        Exp::App(f, x) => {
            let f_ty = match infer(ctx, store, f) {
                Ok(ty) => ty,
                Err(err) => {
                    return Err(err);
                },
            };
            proof {
                lemma_ctx_in_grows(ctx@, old(store)@.len(), store@.len());
            }
            match f_ty {
                Ty::TFun(a, b) => {
                    let ghost before = store@.len();
                    match check(ctx, store, x, &a) {
                        Ok(_) => {
                            proof {
                                lemma_ty_in_grows(*b, before, store@.len());
                            }
                            Ok(*b)
                        },
                        Err(err) => Err(err),
                    }
                },
                Ty::TUVar(cell) => {
                    if let Hole::Empty { lvl } = store.get(cell) {
                        let lvl = *lvl;
                        let ghost found = store@;
                        let a = store.fresh(lvl);
                        let b = store.fresh(lvl);
                        let arrow = Ty::TFun(Box::new(Ty::TUVar(a)), Box::new(Ty::TUVar(b)));
                        proof {
                            let n = store@.len();
                            assert(ty_in(Ty::TUVar(a), n) && ty_in(Ty::TUVar(b), n));
                            assert(!reaches(store@, Ty::TUVar(a), cell as int));
                            assert(!reaches(store@, Ty::TUVar(b), cell as int));
                            lemma_fill_well_formed(store@, cell as int, arrow);
                        }
                        store.set(cell, Hole::Filled(Box::new(arrow)));
                        proof {
                            lemma_ctx_in_grows(ctx@, found.len(), store@.len());
                            assert(store@ == arrow_cells(found, cell as int, lvl));
                        }
                        match check(ctx, store, x, &Ty::TUVar(a)) {
                            Ok(_) => Ok(Ty::TUVar(b)),
                            Err(err) => Err(err),
                        }
                    } else {
                        Err(TypeError::NotAFunction)
                    }
                },
                _ => Err(TypeError::NotAFunction),
            }
        },
        Exp::Lam(name, body) => {
            let a = store.fresh(ctx.lvl);
            let a_scheme = TyScheme { num_vars: 0, ty: Box::new(Ty::TUVar(a)) };
            let new_ctx = ctx.bind(name, a_scheme);
            proof {
                lemma_ctx_in_grows(ctx@, old(store)@.len(), store@.len());
                lemma_typable_bind(store@, ctx@, name@, a_scheme, **body);
            }
            match infer(&new_ctx, store, body) {
                Ok(b) => {
                    proof {
                        assert(ty_in(Ty::TUVar(a), store@.len()));
                    }
                    Ok(Ty::TFun(Box::new(Ty::TUVar(a)), Box::new(b)))
                },
                Err(err) => Err(err),
            }
        },
        Exp::Let(x, value, body) => {
            let x_ty = match infer_and_generalize(ctx, store, value) {
                Ok(scheme) => scheme,
                Err(err) => {
                    return Err(err);
                },
            };
            let new_ctx = ctx.bind(x, x_ty);
            proof {
                lemma_ctx_in_grows(ctx@, old(store)@.len(), store@.len());
                lemma_typable_bind(store@, ctx@, x@, x_ty, **body);
            }
            infer(&new_ctx, store, body)
        },
    }
}

/// Infers the type of `e` one level deeper than `ctx` and generalizes it at
/// the level of `ctx`, as `infer_and_generalize_spec` says.
pub fn infer_and_generalize(ctx: &Context, store: &mut Store, e: &Exp) -> (res: Result<
    TyScheme,
    TypeError,
>)
    requires
        well_formed(old(store)@),
        ctx_in(ctx@, old(store)@.len()),
        closed(ctx@, ctx@.var_types.dom(), *e),
        ctx.lvl + 1 + let_depth(*e) <= u32::MAX,
    ensures
        final(store).wf(),
        old(store)@.len() <= final(store)@.len(),
        (final(store)@, res) == infer_and_generalize_spec(old(store)@, ctx@, *e),
        res matches Ok(scheme) ==> ty_in(*scheme.ty, final(store)@.len()),
    decreases *e, 1int,
{
    let new_ctx = ctx.at_level(ctx.lvl + 1);
    proof {
        lemma_closed_same_type_names(ctx@, new_ctx@, ctx@.var_types.dom(), *e);
    }
    let ty = match infer(&new_ctx, store, e) {
        Ok(ty) => ty,
        Err(err) => {
            return Err(err);
        },
    };
    Ok(generalize(store, ctx.lvl, &ty))
}

} // verus!
