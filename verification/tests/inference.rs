use hm_with_kinds::ast;
use hm_with_kinds::bidi::{check, infer, infer_and_generalize};
use hm_with_kinds::check::{Context, Hole, Kind, Ty, TyScheme};
use hm_with_kinds::env::Env;
use hm_with_kinds::error::TypeError;
use hm_with_kinds::hm::generalize;
use hm_with_kinds::store::Store;

fn empty_context() -> Context {
    Context { lvl: 0, var_types: Env::new(), tyvar_kinds: Env::new(), tyvar_values: Env::new() }
}

fn var(name: &str) -> ast::Exp {
    ast::Exp::Var(name.to_owned())
}

fn lam(name: &str, body: ast::Exp) -> ast::Exp {
    ast::Exp::Lam(name.to_owned(), Box::new(body))
}

fn app(f: ast::Exp, x: ast::Exp) -> ast::Exp {
    ast::Exp::App(Box::new(f), Box::new(x))
}

fn fun(a: Ty, b: Ty) -> Ty {
    Ty::TFun(Box::new(a), Box::new(b))
}

fn star_to_star() -> Kind {
    Kind::KFun(Box::from(Kind::KStar), Box::from(Kind::KStar))
}

/// The type with every filled variable replaced by its content.
fn resolved(store: &mut Store, ty: &Ty) -> Ty {
    *generalize(store, u32::MAX, ty).ty
}

fn list_of_maybe_term() -> ast::Exp {
    ast::Exp::Lam(
        "x".to_owned(),
        Box::from(ast::Exp::Lam(
            "xs".to_owned(),
            Box::from(ast::Exp::App(
                Box::from(ast::Exp::App(
                    Box::from(ast::Exp::Var("cons".to_owned())),
                    Box::from(ast::Exp::App(
                        Box::from(ast::Exp::Var("just".to_owned())),
                        Box::from(ast::Exp::Var("x".to_owned())),
                    )),
                )),
                Box::from(ast::Exp::Var("xs".to_owned())),
            )),
        )),
    )
}

fn maybe_list_context(just: TyScheme, cons: TyScheme, maybe: Ty, list: Ty) -> Context {
    Context {
        lvl: 0,
        var_types: {
            let mut var_types = Env::new();
            var_types.insert("just".to_owned(), just);
            var_types.insert("cons".to_owned(), cons);
            var_types
        },
        tyvar_kinds: {
            let mut tyvar_kinds = Env::new();
            tyvar_kinds.insert("maybe".to_owned(), star_to_star());
            tyvar_kinds.insert("list".to_owned(), star_to_star());
            tyvar_kinds
        },
        tyvar_values: {
            let mut tyvar_values = Env::new();
            tyvar_values.insert("maybe".to_owned(), maybe);
            tyvar_values.insert("list".to_owned(), list);
            tyvar_values
        },
    }
}

#[test]
fn it_works() {
    let mut store = Store::new();
    let maybe = Ty::TCon(0);
    let just = {
        let a = Ty::TUVar(store.new_cell(Hole::Empty { lvl: 0 }));
        TyScheme {
            num_vars: 1,
            ty: Box::from(Ty::TFun(
                Box::from(a.clone()),
                Box::from(Ty::TApp(Kind::KStar, Box::from(maybe.clone()), Box::from(a))),
            )),
        }
    };
    let list = Ty::TCon(1);
    let cons = {
        let a = Ty::TUVar(store.new_cell(Hole::Generalized(0)));
        let list_a = Ty::TApp(Kind::KStar, Box::from(list.clone()), Box::from(a.clone()));
        TyScheme {
            num_vars: 1,
            ty: Box::from(Ty::TFun(
                Box::from(a),
                Box::from(Ty::TFun(Box::from(list_a.clone()), Box::from(list_a))),
            )),
        }
    };
    let ctx = maybe_list_context(just, cons, maybe, list);
    let term = list_of_maybe_term();

    let result = infer_and_generalize(&ctx, &mut store, &term).unwrap();
    println!("result = {result:?}");
}

#[test]
fn it_works_yields_the_shared_variable_of_just() {
    let mut store = Store::new();
    let shared = store.new_cell(Hole::Empty { lvl: 0 });
    let bound = store.new_cell(Hole::Generalized(0));
    let maybe = Ty::TCon(0);
    let list = Ty::TCon(1);
    let maybe_of = |t: Ty| Ty::TApp(Kind::KStar, Box::new(Ty::TCon(0)), Box::new(t));
    let list_of = |t: Ty| Ty::TApp(Kind::KStar, Box::new(Ty::TCon(1)), Box::new(t));
    let just = TyScheme {
        num_vars: 1,
        ty: Box::new(fun(Ty::TUVar(shared), maybe_of(Ty::TUVar(shared)))),
    };
    let cons = TyScheme {
        num_vars: 1,
        ty: Box::new(fun(
            Ty::TUVar(bound),
            fun(list_of(Ty::TUVar(bound)), list_of(Ty::TUVar(bound))),
        )),
    };
    let ctx = maybe_list_context(just, cons, maybe, list);
    let result = infer_and_generalize(&ctx, &mut store, &list_of_maybe_term()).unwrap();
    let a = Ty::TUVar(shared);
    assert_eq!(result.num_vars, 0);
    assert_eq!(
        *result.ty,
        fun(a.clone(), fun(list_of(maybe_of(a.clone())), list_of(maybe_of(a))))
    );
    assert_eq!(*store.get(shared), Hole::Empty { lvl: 0 });
}

#[test]
fn list_of_maybe_is_generalized_over_one_variable() {
    let mut store = Store::new();
    let just_var = store.new_cell(Hole::Generalized(0));
    let cons_var = store.new_cell(Hole::Generalized(0));
    let maybe_of = |t: Ty| Ty::TApp(Kind::KStar, Box::new(Ty::TCon(0)), Box::new(t));
    let list_of = |t: Ty| Ty::TApp(Kind::KStar, Box::new(Ty::TCon(1)), Box::new(t));
    let just = TyScheme {
        num_vars: 1,
        ty: Box::new(fun(Ty::TUVar(just_var), maybe_of(Ty::TUVar(just_var)))),
    };
    let cons = TyScheme {
        num_vars: 1,
        ty: Box::new(fun(
            Ty::TUVar(cons_var),
            fun(list_of(Ty::TUVar(cons_var)), list_of(Ty::TUVar(cons_var))),
        )),
    };
    let ctx = maybe_list_context(just, cons, Ty::TCon(0), Ty::TCon(1));
    let result = infer_and_generalize(&ctx, &mut store, &list_of_maybe_term()).unwrap();
    assert_eq!(result.num_vars, 1);
    let a = match &*result.ty {
        Ty::TFun(a, _) => (**a).clone(),
        other => panic!("not an arrow: {other:?}"),
    };
    let handle = match a {
        Ty::TUVar(h) => h,
        ref other => panic!("not a variable: {other:?}"),
    };
    assert_eq!(*store.get(handle), Hole::Generalized(0));
    assert_eq!(
        *result.ty,
        fun(a.clone(), fun(list_of(maybe_of(a.clone())), list_of(maybe_of(a))))
    );
}

#[test]
fn identity_checks_against_an_arrow_of_constants() {
    let mut store = Store::new();
    let ctx = empty_context();
    let term = lam("x", var("x"));
    let expected = fun(Ty::TCon(0), Ty::TCon(0));
    assert_eq!(check(&ctx, &mut store, &term, &expected), Ok(()));
    assert_eq!(store.len(), 0);
}

#[test]
fn identity_does_not_check_against_an_arrow_between_two_constants() {
    let mut store = Store::new();
    let ctx = empty_context();
    let term = lam("x", var("x"));
    let expected = fun(Ty::TCon(0), Ty::TCon(1));
    assert_eq!(check(&ctx, &mut store, &term, &expected), Err(TypeError::TypeMismatch));
}

#[test]
fn constant_function_is_generalized_over_two_variables() {
    let mut store = Store::new();
    let ctx = empty_context();
    let term = lam("x", lam("y", var("x")));
    let scheme = infer_and_generalize(&ctx, &mut store, &term).unwrap();
    assert_eq!(scheme.num_vars, 2);
    assert_eq!(*scheme.ty, fun(Ty::TUVar(0), fun(Ty::TUVar(1), Ty::TUVar(0))));
    assert_eq!(store.len(), 2);
    assert_eq!(*store.get(0), Hole::Generalized(0));
    assert_eq!(*store.get(1), Hole::Generalized(1));
}

#[test]
fn applying_an_unresolved_function_binds_it_to_an_arrow() {
    let mut store = Store::new();
    let f = store.fresh(0);
    let mut ctx = empty_context();
    ctx.var_types.insert("f".to_owned(), TyScheme { num_vars: 0, ty: Box::new(Ty::TUVar(f)) });
    ctx.var_types.insert("x".to_owned(), TyScheme { num_vars: 0, ty: Box::new(Ty::TCon(0)) });
    let result = infer(&ctx, &mut store, &app(var("f"), var("x"))).unwrap();
    assert_eq!(result, Ty::TUVar(2));
    assert_eq!(*store.get(2), Hole::Empty { lvl: 0 });
    assert_eq!(*store.get(f), Hole::Filled(Box::new(fun(Ty::TUVar(1), Ty::TUVar(2)))));
    assert_eq!(*store.get(1), Hole::Filled(Box::new(Ty::TCon(0))));
    assert_eq!(resolved(&mut store, &Ty::TUVar(f)), fun(Ty::TCon(0), Ty::TUVar(2)));
}

#[test]
fn applying_a_constant_is_not_a_function() {
    let mut store = Store::new();
    let mut ctx = empty_context();
    ctx.var_types.insert("c".to_owned(), TyScheme { num_vars: 0, ty: Box::new(Ty::TCon(0)) });
    assert_eq!(
        infer(&ctx, &mut store, &app(var("c"), var("c"))),
        Err(TypeError::NotAFunction)
    );
}

#[test]
fn applying_a_bound_variable_of_a_scheme_is_not_a_function() {
    let mut store = Store::new();
    let g = store.new_cell(Hole::Generalized(3));
    let mut ctx = empty_context();
    ctx.var_types.insert("g".to_owned(), TyScheme { num_vars: 0, ty: Box::new(Ty::TUVar(g)) });
    assert_eq!(
        infer(&ctx, &mut store, &app(var("g"), var("g"))),
        Err(TypeError::NotAFunction)
    );
    assert_eq!(store.len(), 1);
}

#[test]
fn a_variable_of_another_constant_is_a_type_mismatch() {
    let mut store = Store::new();
    let mut ctx = empty_context();
    ctx.var_types.insert("x".to_owned(), TyScheme { num_vars: 0, ty: Box::new(Ty::TCon(0)) });
    assert_eq!(check(&ctx, &mut store, &var("x"), &Ty::TCon(1)), Err(TypeError::TypeMismatch));
    assert_eq!(check(&ctx, &mut store, &var("x"), &Ty::TCon(0)), Ok(()));
}

fn constants_context() -> Context {
    let mut ctx = empty_context();
    ctx.var_types.insert("n".to_owned(), TyScheme { num_vars: 0, ty: Box::new(Ty::TCon(0)) });
    ctx.var_types.insert("b".to_owned(), TyScheme { num_vars: 0, ty: Box::new(Ty::TCon(1)) });
    ctx
}

/// `(\u. id b) (id n)`: `id` applied to constants of two types.
fn two_uses_of_id() -> ast::Exp {
    app(lam("u", app(var("id"), var("b"))), app(var("id"), var("n")))
}

#[test]
fn let_bound_identity_is_used_at_two_types() {
    let mut store = Store::new();
    let ctx = constants_context();
    let term = ast::Exp::Let(
        "id".to_owned(),
        Box::new(lam("x", var("x"))),
        Box::new(two_uses_of_id()),
    );
    let result = infer(&ctx, &mut store, &term).unwrap();
    assert_eq!(result, Ty::TUVar(2));
    assert_eq!(*store.get(0), Hole::Generalized(0));
    assert_eq!(*store.get(2), Hole::Filled(Box::new(Ty::TCon(1))));
    assert_eq!(*store.get(3), Hole::Filled(Box::new(Ty::TCon(0))));
    assert_eq!(resolved(&mut store, &result), Ty::TCon(1));
}

#[test]
fn lambda_bound_identity_is_resolved_by_its_first_use() {
    let mut store = Store::new();
    let ctx = constants_context();
    let term = lam("id", two_uses_of_id());
    assert_eq!(infer(&ctx, &mut store, &term), Err(TypeError::NotAFunction));
    assert_eq!(
        resolved(&mut store, &Ty::TUVar(0)),
        fun(Ty::TCon(1), Ty::TUVar(3))
    );
}

#[test]
fn let_checks_its_body_against_the_expected_type() {
    let mut store = Store::new();
    let ctx = constants_context();
    let term = ast::Exp::Let("k".to_owned(), Box::new(var("n")), Box::new(var("k")));
    assert_eq!(check(&ctx, &mut store, &term, &Ty::TCon(0)), Ok(()));
    assert_eq!(check(&ctx, &mut store, &term, &Ty::TCon(1)), Err(TypeError::TypeMismatch));
}

#[test]
fn annotation_gives_the_type_and_is_checked() {
    let mut store = Store::new();
    let mut ctx = empty_context();
    ctx.tyvar_kinds.insert("int".to_owned(), Kind::KStar);
    ctx.tyvar_values.insert("int".to_owned(), Ty::TCon(7));
    ctx.tyvar_kinds.insert("maybe".to_owned(), star_to_star());
    ctx.tyvar_values.insert("maybe".to_owned(), Ty::TCon(0));
    let int = || Box::new(ast::Ty::Named("int".to_owned()));
    let arrow = ast::Ty::Fun(int(), int());
    let term = ast::Exp::Annote(Box::new(lam("x", var("x"))), Box::new(arrow));
    assert_eq!(infer(&ctx, &mut store, &term), Ok(fun(Ty::TCon(7), Ty::TCon(7))));
    assert_eq!(store.len(), 0);

    let ill_kinded = ast::Exp::Annote(
        Box::new(lam("x", var("x"))),
        Box::new(ast::Ty::Named("maybe".to_owned())),
    );
    assert_eq!(infer(&ctx, &mut store, &ill_kinded), Err(TypeError::KindMismatch));
}
