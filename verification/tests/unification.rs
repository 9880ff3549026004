use hm_with_kinds::check::{Context, Hole, Kind, Ty, TyScheme};
use hm_with_kinds::env::Env;
use hm_with_kinds::error::TypeError;
use hm_with_kinds::hm::{generalize, instantiate, unify, unify_two_uvars, unify_uvar};
use hm_with_kinds::store::Store;

fn no_names() -> Context {
    Context { lvl: 0, var_types: Env::new(), tyvar_kinds: Env::new(), tyvar_values: Env::new() }
}

fn arrow(a: Ty, b: Ty) -> Ty {
    Ty::TFun(Box::new(a), Box::new(b))
}

fn applied(kind: Kind, f: Ty, x: Ty) -> Ty {
    Ty::TApp(kind, Box::new(f), Box::new(x))
}

fn cells_of(store: &Store) -> Vec<Hole> {
    let mut cells = Vec::new();
    for h in 0..store.len() {
        cells.push(store.get(h).clone());
    }
    cells
}

#[test]
fn a_new_store_has_no_cells_and_numbers_them_from_zero() {
    let mut store = Store::new();
    assert_eq!(store.len(), 0);
    assert_eq!(store.fresh(4), 0);
    assert_eq!(store.new_cell(Hole::Generalized(2)), 1);
    assert_eq!(store.new_cell(Hole::Filled(Box::new(Ty::TUVar(0)))), 2);
    assert_eq!(store.len(), 3);
    assert_eq!(
        cells_of(&store),
        vec![
            Hole::Empty { lvl: 4 },
            Hole::Generalized(2),
            Hole::Filled(Box::new(Ty::TUVar(0)))
        ]
    );
}

#[test]
fn two_different_constants_do_not_unify() {
    let mut store = Store::new();
    assert_eq!(
        unify(&no_names(), &mut store, &Ty::TCon(0), &Ty::TCon(1)),
        Err(TypeError::CantUnify)
    );
    assert_eq!(unify(&no_names(), &mut store, &Ty::TCon(1), &Ty::TCon(1)), Ok(()));
}

#[test]
fn a_type_without_variables_unifies_with_itself_and_changes_no_cell() {
    let mut store = Store::new();
    store.fresh(3);
    store.new_cell(Hole::Generalized(0));
    store.new_cell(Hole::Filled(Box::new(Ty::TUVar(0))));
    let before = cells_of(&store);
    let t = arrow(
        Ty::TCon(0),
        applied(Kind::KStar, Ty::TCon(1), arrow(Ty::TCon(2), Ty::TCon(0))),
    );
    assert_eq!(unify(&no_names(), &mut store, &t, &t.clone()), Ok(()));
    assert_eq!(cells_of(&store), before);
}

#[test]
fn types_of_different_shapes_do_not_unify() {
    let mut store = Store::new();
    let ctx = no_names();
    let f = arrow(Ty::TCon(0), Ty::TCon(0));
    let a = applied(Kind::KStar, Ty::TCon(0), Ty::TCon(0));
    assert_eq!(unify(&ctx, &mut store, &f, &Ty::TCon(0)), Err(TypeError::CantUnify));
    assert_eq!(unify(&ctx, &mut store, &Ty::TCon(0), &a), Err(TypeError::CantUnify));
    assert_eq!(unify(&ctx, &mut store, &a, &f), Err(TypeError::CantUnify));
    assert_eq!(unify(&ctx, &mut store, &f, &a), Err(TypeError::CantUnify));
}

#[test]
fn the_kind_that_an_application_carries_is_not_compared() {
    let mut store = Store::new();
    let star_to_star = Kind::KFun(Box::new(Kind::KStar), Box::new(Kind::KStar));
    let a = applied(Kind::KStar, Ty::TCon(0), Ty::TCon(1));
    let b = applied(star_to_star, Ty::TCon(0), Ty::TCon(1));
    assert_eq!(unify(&no_names(), &mut store, &a, &b), Ok(()));
    let c = applied(Kind::KStar, Ty::TCon(0), Ty::TCon(2));
    assert_eq!(unify(&no_names(), &mut store, &a, &c), Err(TypeError::CantUnify));
}

#[test]
fn the_left_parts_stay_unified_when_the_right_parts_fail() {
    let mut store = Store::new();
    let u = store.fresh(0);
    let x = arrow(Ty::TUVar(u), Ty::TCon(0));
    let y = arrow(Ty::TCon(1), Ty::TCon(2));
    assert_eq!(unify(&no_names(), &mut store, &x, &y), Err(TypeError::CantUnify));
    assert_eq!(*store.get(u), Hole::Filled(Box::new(Ty::TCon(1))));
}

#[test]
fn the_right_parts_are_not_touched_when_the_left_parts_fail() {
    let mut store = Store::new();
    let u = store.fresh(0);
    let x = applied(Kind::KStar, Ty::TCon(0), Ty::TUVar(u));
    let y = applied(Kind::KStar, Ty::TCon(1), Ty::TCon(2));
    assert_eq!(unify(&no_names(), &mut store, &x, &y), Err(TypeError::CantUnify));
    assert_eq!(*store.get(u), Hole::Empty { lvl: 0 });
}

#[test]
fn a_variable_on_either_side_is_bound_to_the_other_side() {
    let mut store = Store::new();
    let u = store.fresh(0);
    let v = store.fresh(0);
    let ctx = no_names();
    assert_eq!(unify(&ctx, &mut store, &Ty::TUVar(u), &Ty::TCon(3)), Ok(()));
    assert_eq!(unify(&ctx, &mut store, &Ty::TCon(4), &Ty::TUVar(v)), Ok(()));
    assert_eq!(*store.get(u), Hole::Filled(Box::new(Ty::TCon(3))));
    assert_eq!(*store.get(v), Hole::Filled(Box::new(Ty::TCon(4))));
}

#[test]
fn a_filled_variable_is_not_bound_again() {
    let mut store = Store::new();
    let u = store.new_cell(Hole::Filled(Box::new(Ty::TCon(3))));
    let g = store.new_cell(Hole::Generalized(0));
    let ctx = no_names();
    assert_eq!(unify_uvar(&ctx, &mut store, u, &Ty::TCon(3)), Err(TypeError::CantUnify));
    assert_eq!(unify_uvar(&ctx, &mut store, g, &Ty::TCon(3)), Err(TypeError::CantUnify));
    assert_eq!(unify(&ctx, &mut store, &Ty::TUVar(u), &Ty::TCon(3)), Err(TypeError::CantUnify));
    assert_eq!(
        cells_of(&store),
        vec![Hole::Filled(Box::new(Ty::TCon(3))), Hole::Generalized(0)]
    );
}

#[test]
fn binding_lowers_the_levels_of_the_variables_that_the_type_reaches() {
    let mut store = Store::new();
    let bound = store.fresh(3);
    let high = store.fresh(7);
    let low = store.fresh(1);
    let equal = store.fresh(3);
    let behind = store.fresh(9);
    let filled = store.new_cell(Hole::Filled(Box::new(arrow(Ty::TUVar(behind), Ty::TCon(0)))));
    let scheme_var = store.new_cell(Hole::Generalized(0));
    let apart = store.fresh(8);
    let t = arrow(
        Ty::TUVar(high),
        arrow(
            Ty::TUVar(low),
            arrow(Ty::TUVar(equal), arrow(Ty::TUVar(filled), Ty::TUVar(scheme_var))),
        ),
    );
    assert_eq!(unify_uvar(&no_names(), &mut store, bound, &t), Ok(()));
    assert_eq!(*store.get(bound), Hole::Filled(Box::new(t)));
    assert_eq!(*store.get(high), Hole::Empty { lvl: 3 });
    assert_eq!(*store.get(low), Hole::Empty { lvl: 1 });
    assert_eq!(*store.get(equal), Hole::Empty { lvl: 3 });
    assert_eq!(*store.get(behind), Hole::Empty { lvl: 3 });
    assert_eq!(
        *store.get(filled),
        Hole::Filled(Box::new(arrow(Ty::TUVar(behind), Ty::TCon(0))))
    );
    assert_eq!(*store.get(scheme_var), Hole::Generalized(0));
    assert_eq!(*store.get(apart), Hole::Empty { lvl: 8 });
}

#[test]
fn a_variable_is_not_bound_to_a_type_that_holds_it() {
    let mut store = Store::new();
    let u = store.fresh(0);
    let t = arrow(Ty::TUVar(u), Ty::TCon(0));
    assert_eq!(unify_uvar(&no_names(), &mut store, u, &t), Err(TypeError::CantUnify));
    assert_eq!(unify(&no_names(), &mut store, &t, &Ty::TUVar(u)), Err(TypeError::CantUnify));
    assert_eq!(unify_uvar(&no_names(), &mut store, u, &Ty::TUVar(u)), Err(TypeError::CantUnify));
    assert_eq!(*store.get(u), Hole::Empty { lvl: 0 });
}

#[test]
fn a_variable_is_not_bound_to_a_type_that_reaches_it_through_filled_cells() {
    let mut store = Store::new();
    let u = store.fresh(0);
    let inner = store.new_cell(Hole::Filled(Box::new(arrow(Ty::TCon(0), Ty::TUVar(u)))));
    let outer = store.new_cell(Hole::Filled(Box::new(Ty::TUVar(inner))));
    let t = applied(Kind::KStar, Ty::TCon(1), Ty::TUVar(outer));
    assert_eq!(unify_uvar(&no_names(), &mut store, u, &t), Err(TypeError::CantUnify));
    assert_eq!(*store.get(u), Hole::Empty { lvl: 0 });
}

#[test]
fn levels_lowered_before_the_occurrence_is_met_stay_lowered() {
    let mut store = Store::new();
    let u = store.fresh(2);
    let before = store.fresh(9);
    let after = store.fresh(9);
    let t = arrow(Ty::TUVar(before), arrow(Ty::TUVar(u), Ty::TUVar(after)));
    assert_eq!(unify_uvar(&no_names(), &mut store, u, &t), Err(TypeError::CantUnify));
    assert_eq!(
        cells_of(&store),
        vec![Hole::Empty { lvl: 2 }, Hole::Empty { lvl: 2 }, Hole::Empty { lvl: 9 }]
    );
}

#[test]
fn of_two_variables_the_one_of_the_higher_level_is_redirected() {
    let mut store = Store::new();
    let outer = store.fresh(1);
    let inner = store.fresh(3);
    assert_eq!(unify_two_uvars(&mut store, outer, inner), Ok(()));
    assert_eq!(
        cells_of(&store),
        vec![Hole::Empty { lvl: 1 }, Hole::Filled(Box::new(Ty::TUVar(outer)))]
    );

    let mut store = Store::new();
    let inner = store.fresh(3);
    let outer = store.fresh(1);
    assert_eq!(unify_two_uvars(&mut store, inner, outer), Ok(()));
    assert_eq!(
        cells_of(&store),
        vec![Hole::Filled(Box::new(Ty::TUVar(outer))), Hole::Empty { lvl: 1 }]
    );
}

#[test]
fn of_two_variables_of_one_level_the_first_is_redirected() {
    let mut store = Store::new();
    let a = store.fresh(2);
    let b = store.fresh(2);
    assert_eq!(unify(&no_names(), &mut store, &Ty::TUVar(a), &Ty::TUVar(b)), Ok(()));
    assert_eq!(
        cells_of(&store),
        vec![Hole::Filled(Box::new(Ty::TUVar(b))), Hole::Empty { lvl: 2 }]
    );
}

#[test]
fn a_variable_unified_with_itself_stays_unresolved() {
    let mut store = Store::new();
    let a = store.fresh(2);
    assert_eq!(unify_two_uvars(&mut store, a, a), Ok(()));
    assert_eq!(unify(&no_names(), &mut store, &Ty::TUVar(a), &Ty::TUVar(a)), Ok(()));
    assert_eq!(cells_of(&store), vec![Hole::Empty { lvl: 2 }]);
}

#[test]
fn two_variables_of_which_one_is_not_unresolved_are_left_alone() {
    let mut store = Store::new();
    let a = store.fresh(2);
    let b = store.new_cell(Hole::Filled(Box::new(Ty::TCon(0))));
    let g = store.new_cell(Hole::Generalized(1));
    let before = cells_of(&store);
    assert_eq!(unify_two_uvars(&mut store, a, b), Ok(()));
    assert_eq!(unify_two_uvars(&mut store, b, a), Ok(()));
    assert_eq!(unify_two_uvars(&mut store, g, a), Ok(()));
    assert_eq!(unify_two_uvars(&mut store, b, g), Ok(()));
    assert_eq!(cells_of(&store), before);
}

#[test]
fn generalization_numbers_the_variables_in_the_order_of_the_first_visit() {
    let mut store = Store::new();
    let c0 = store.fresh(1);
    let c1 = store.fresh(0);
    let c3_handle = 3;
    let c2 = store.new_cell(Hole::Empty { lvl: 5 });
    let c3 = store.fresh(2);
    assert_eq!(c3, c3_handle);
    let link = store.new_cell(Hole::Filled(Box::new(arrow(Ty::TUVar(c0), Ty::TUVar(c3)))));
    let t = arrow(Ty::TUVar(c3), arrow(Ty::TUVar(link), Ty::TUVar(c1)));
    let scheme = generalize(&mut store, 0, &t);
    assert_eq!(scheme.num_vars, 2);
    assert_eq!(
        *scheme.ty,
        arrow(
            Ty::TUVar(c3),
            arrow(arrow(Ty::TUVar(c0), Ty::TUVar(c3)), Ty::TUVar(c1))
        )
    );
    assert_eq!(*store.get(c3), Hole::Generalized(0));
    assert_eq!(*store.get(c0), Hole::Generalized(1));
    assert_eq!(*store.get(c1), Hole::Empty { lvl: 0 });
    assert_eq!(*store.get(c2), Hole::Empty { lvl: 5 });
    assert_eq!(
        *store.get(link),
        Hole::Filled(Box::new(arrow(Ty::TUVar(c0), Ty::TUVar(c3))))
    );
}

#[test]
fn generalization_leaves_the_variables_of_the_level_and_below() {
    let mut store = Store::new();
    let at = store.fresh(4);
    let below = store.fresh(3);
    let above = store.fresh(5);
    let t = arrow(Ty::TUVar(at), arrow(Ty::TUVar(below), Ty::TUVar(above)));
    let scheme = generalize(&mut store, 4, &t);
    assert_eq!(scheme.num_vars, 1);
    assert_eq!(*scheme.ty, t);
    assert_eq!(
        cells_of(&store),
        vec![Hole::Empty { lvl: 4 }, Hole::Empty { lvl: 3 }, Hole::Generalized(0)]
    );
}

#[test]
fn generalization_keeps_the_kind_of_an_application() {
    let mut store = Store::new();
    let u = store.fresh(1);
    let k = Kind::KFun(Box::new(Kind::KStar), Box::new(Kind::KStar));
    let t = applied(k, Ty::TCon(0), Ty::TUVar(u));
    let scheme = generalize(&mut store, 0, &t);
    assert_eq!(scheme.num_vars, 1);
    assert_eq!(*scheme.ty, t);
}

#[test]
fn generalizing_again_changes_no_cell() {
    let mut store = Store::new();
    let a = store.fresh(1);
    let b = store.fresh(1);
    let link = store.new_cell(Hole::Filled(Box::new(Ty::TUVar(b))));
    let t = arrow(Ty::TUVar(a), Ty::TUVar(link));
    let first = generalize(&mut store, 0, &t);
    assert_eq!(first.num_vars, 2);
    let after_first = cells_of(&store);
    let second = generalize(&mut store, 0, &first.ty);
    assert_eq!(second.num_vars, 0);
    assert_eq!(second.ty, first.ty);
    assert_eq!(cells_of(&store), after_first);
    let third = generalize(&mut store, 0, &t);
    assert_eq!(third.num_vars, 0);
    assert_eq!(third.ty, first.ty);
    assert_eq!(cells_of(&store), after_first);
}

#[test]
fn an_instance_has_one_new_variable_for_each_bound_variable() {
    let mut store = Store::new();
    let g0 = store.new_cell(Hole::Generalized(0));
    let g1 = store.new_cell(Hole::Generalized(1));
    let scheme = TyScheme {
        num_vars: 2,
        ty: Box::new(arrow(Ty::TUVar(g0), arrow(Ty::TUVar(g1), Ty::TUVar(g0)))),
    };
    let instance = instantiate(&mut store, 4, &scheme);
    assert_eq!(instance, arrow(Ty::TUVar(2), arrow(Ty::TUVar(3), Ty::TUVar(2))));
    assert_eq!(
        cells_of(&store),
        vec![
            Hole::Generalized(0),
            Hole::Generalized(1),
            Hole::Empty { lvl: 4 },
            Hole::Empty { lvl: 4 }
        ]
    );
    let again = instantiate(&mut store, 6, &scheme);
    assert_eq!(again, arrow(Ty::TUVar(4), arrow(Ty::TUVar(5), Ty::TUVar(4))));
    assert_eq!(*store.get(5), Hole::Empty { lvl: 6 });
    assert_eq!(store.len(), 6);
}

#[test]
fn an_instance_shares_every_variable_that_the_scheme_does_not_bind() {
    let mut store = Store::new();
    let free = store.fresh(0);
    let bound = store.new_cell(Hole::Generalized(0));
    let foreign = store.new_cell(Hole::Generalized(5));
    let hidden = store.new_cell(Hole::Filled(Box::new(Ty::TUVar(bound))));
    let k = Kind::KStar;
    let scheme = TyScheme {
        num_vars: 1,
        ty: Box::new(arrow(
            Ty::TUVar(free),
            applied(k, Ty::TUVar(bound), arrow(Ty::TUVar(foreign), Ty::TUVar(hidden))),
        )),
    };
    let instance = instantiate(&mut store, 2, &scheme);
    assert_eq!(
        instance,
        arrow(
            Ty::TUVar(free),
            applied(Kind::KStar, Ty::TUVar(4), arrow(Ty::TUVar(foreign), Ty::TUVar(hidden)))
        )
    );
    assert_eq!(store.len(), 5);
    assert_eq!(*store.get(4), Hole::Empty { lvl: 2 });
    assert_eq!(*store.get(hidden), Hole::Filled(Box::new(Ty::TUVar(bound))));
}

#[test]
fn an_instance_of_a_scheme_without_bound_variables_is_its_type() {
    let mut store = Store::new();
    let u = store.fresh(0);
    let scheme = TyScheme { num_vars: 0, ty: Box::new(arrow(Ty::TUVar(u), Ty::TCon(1))) };
    assert_eq!(instantiate(&mut store, 9, &scheme), arrow(Ty::TUVar(u), Ty::TCon(1)));
    assert_eq!(store.len(), 1);
}

#[test]
fn generalizing_and_instantiating_renames_the_variables() {
    let mut store = Store::new();
    let a = store.fresh(3);
    let b = store.fresh(2);
    let t = arrow(Ty::TUVar(b), arrow(Ty::TUVar(a), Ty::TUVar(b)));
    let scheme = generalize(&mut store, 1, &t);
    assert_eq!(scheme.num_vars, 2);
    assert_eq!(*scheme.ty, t);
    assert_eq!(*store.get(b), Hole::Generalized(0));
    assert_eq!(*store.get(a), Hole::Generalized(1));
    let instance = instantiate(&mut store, 7, &scheme);
    assert_eq!(instance, arrow(Ty::TUVar(2), arrow(Ty::TUVar(3), Ty::TUVar(2))));
    assert_eq!(*store.get(2), Hole::Empty { lvl: 7 });
    assert_eq!(*store.get(3), Hole::Empty { lvl: 7 });
}
