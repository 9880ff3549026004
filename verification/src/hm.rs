//! Unification with levels, generalization and instantiation.
use vstd::prelude::*;
use vstd::set_lib::{lemma_int_range, lemma_len_subset, set_int_range};
use crate::check::{Context, Hole, Ty, TyScheme};
use crate::error::TypeError;
use crate::laws::{
    ground, lemma_generalize_idle, lemma_unify_ground_reflexive, lemma_unify_levels, levels_within,
    settled,
};
use crate::store::{
    height, lemma_fill_reaches, lemma_fill_well_formed, lemma_same_links_ranked,
    lemma_same_links_reaches, ranked, reaches, resolved, ty_in, well_formed, witness, Store,
};

verus! {

/// `after` is `before` with some unresolved variables of a level above `lvl`
/// brought down to `lvl`.
pub open spec fn lowered(before: Seq<Hole>, after: Seq<Hole>, lvl: u32) -> bool {
    &&& after.len() == before.len()
    &&& forall|i: int|
        0 <= i < before.len() ==> #[trigger] after[i] == before[i] || (before[i] matches Hole::Empty {
            lvl: l,
        } && l > lvl && after[i] == Hole::Empty { lvl })
}

/// The walk over `t` that precedes binding cell `c`, an unresolved variable
/// of level `lvl`: it follows filled cells as `links` has them, brings every
/// unresolved variable it meets down to `lvl` in `acc`, and stops with `false`
/// at the first occurrence of `c`.
pub open spec fn adjust(links: Seq<Hole>, acc: Seq<Hole>, lvl: u32, c: int, t: Ty) -> (Seq<
    Hole,
>, bool)
    decreases height(witness(links), t), t,
    when well_formed(links) && ty_in(t, links.len())
{
    match t {
        Ty::TCon(_) => (acc, true),
        Ty::TFun(a, b) => {
            let first = adjust(links, acc, lvl, c, *a);
            if first.1 {
                adjust(links, first.0, lvl, c, *b)
            } else {
                first
            }
        },
        Ty::TApp(_, f, x) => {
            let first = adjust(links, acc, lvl, c, *f);
            if first.1 {
                adjust(links, first.0, lvl, c, *x)
            } else {
                first
            }
        },
        Ty::TUVar(h) => if h == c {
            (acc, false)
        } else {
            match links[h as int] {
                Hole::Filled(u) => adjust(links, acc, lvl, c, *u),
                Hole::Empty { lvl: l } => if l > lvl {
                    (acc.update(h as int, Hole::Empty { lvl }), true)
                } else {
                    (acc, true)
                },
                Hole::Generalized(_) => (acc, true),
            }
        },
    }
}

/// `acc` with every unresolved variable that `t` reaches, and whose level in
/// `links` is above `lvl`, brought down to `lvl`.
pub open spec fn lower_reached(links: Seq<Hole>, acc: Seq<Hole>, lvl: u32, t: Ty) -> Seq<Hole> {
    Seq::new(
        acc.len(),
        |i: int|
            if reaches(links, t, i) && (links[i] matches Hole::Empty { lvl: l } && l > lvl) {
                Hole::Empty { lvl }
            } else {
                acc[i]
            },
    )
}

/// Binding cell `c` to `t`. A cell that is not unresolved is never bound, and
/// an unresolved one is not bound to a type that reaches it: both fail, and
/// in the second case the levels that the walk of `adjust` lowered before it
/// met `c` stay lowered. Otherwise every unresolved variable that `t` reaches
/// is brought down to the level of `c`, and `c` is filled with `t`.
pub open spec fn bind_spec(cells: Seq<Hole>, c: int, t: Ty) -> (Seq<Hole>, Result<(), TypeError>) {
    match cells[c] {
        Hole::Empty { lvl } => if reaches(cells, t, c) {
            (adjust(cells, cells, lvl, c, t).0, Err(TypeError::CantUnify))
        } else {
            (
                lower_reached(cells, cells, lvl, t).update(c, Hole::Filled(Box::new(t))),
                Ok(()),
            )
        },
        _ => (cells, Err(TypeError::CantUnify)),
    }
}

fn lower_levels(
    store: &mut Store,
    lvl: u32,
    uvar: usize,
    ty: &Ty,
    Ghost(links): Ghost<Seq<Hole>>,
    Ghost(rank): Ghost<Seq<nat>>,
) -> (ok: bool)
    requires
        ranked(links, rank),
        lowered(links, old(store)@, lvl),
        ty_in(*ty, links.len()),
    ensures
        lowered(links, final(store)@, lvl),
        (final(store)@, ok) == adjust(links, old(store)@, lvl, uvar as int, *ty),
    decreases height(rank, *ty), *ty,
{
    match ty {
        Ty::TCon(_) => true,
        Ty::TFun(a, b) => {
            if !lower_levels(store, lvl, uvar, a, Ghost(links), Ghost(rank)) {
                return false;
            }
            lower_levels(store, lvl, uvar, b, Ghost(links), Ghost(rank))
        },
        Ty::TApp(_, f, x) => {
            if !lower_levels(store, lvl, uvar, f, Ghost(links), Ghost(rank)) {
                return false;
            }
            lower_levels(store, lvl, uvar, x, Ghost(links), Ghost(rank))
        },
        Ty::TUVar(cell) => {
            if *cell == uvar {
                return false;
            }
            let hole = store.get(*cell).clone();
            match hole {
                Hole::Filled(u) => lower_levels(store, lvl, uvar, &u, Ghost(links), Ghost(rank)),
                Hole::Empty { lvl: l } => {
                    if l > lvl {
                        store.set(*cell, Hole::Empty { lvl });
                    }
                    proof {
                        assert(final(store)@ =~= adjust(
                            links,
                            old(store)@,
                            lvl,
                            uvar as int,
                            *ty,
                        ).0);
                    }
                    true
                },
                Hole::Generalized(_) => true,
            }
        },
    }
}

/// The walk fails exactly where `t` reaches `c`; where it succeeds it has
/// lowered exactly the unresolved variables that `t` reaches.
pub proof fn lemma_adjust(links: Seq<Hole>, acc: Seq<Hole>, lvl: u32, c: int, t: Ty)
    requires
        well_formed(links),
        acc.len() == links.len(),
        ty_in(t, links.len()),
    ensures
        adjust(links, acc, lvl, c, t).1 == !reaches(links, t, c),
        adjust(links, acc, lvl, c, t).1 ==> adjust(links, acc, lvl, c, t).0 == lower_reached(
            links,
            acc,
            lvl,
            t,
        ),
        adjust(links, acc, lvl, c, t).0.len() == acc.len(),
        lowered(links, acc, lvl) ==> lowered(links, adjust(links, acc, lvl, c, t).0, lvl),
{
    lemma_adjust_by(links, witness(links), acc, lvl, c, t);
}

proof fn lemma_adjust_by(
    links: Seq<Hole>,
    rank: Seq<nat>,
    acc: Seq<Hole>,
    lvl: u32,
    c: int,
    t: Ty,
)
    requires
        ranked(links, rank),
        acc.len() == links.len(),
        ty_in(t, links.len()),
    ensures
        adjust(links, acc, lvl, c, t).1 == !reaches(links, t, c),
        adjust(links, acc, lvl, c, t).1 ==> adjust(links, acc, lvl, c, t).0 == lower_reached(
            links,
            acc,
            lvl,
            t,
        ),
        adjust(links, acc, lvl, c, t).0.len() == acc.len(),
        lowered(links, acc, lvl) ==> lowered(links, adjust(links, acc, lvl, c, t).0, lvl),
    decreases height(rank, t), t,
{
    let out = adjust(links, acc, lvl, c, t);
    match t {
        Ty::TCon(_) => {
            assert(out.0 =~= lower_reached(links, acc, lvl, t));
        },
        Ty::TFun(a, b) => {
            lemma_adjust_by(links, rank, acc, lvl, c, *a);
            let first = adjust(links, acc, lvl, c, *a);
            if first.1 {
                lemma_adjust_by(links, rank, first.0, lvl, c, *b);
                if out.1 {
                    assert(out.0 =~= lower_reached(links, acc, lvl, t));
                }
            }
        },
        Ty::TApp(_, f, x) => {
            lemma_adjust_by(links, rank, acc, lvl, c, *f);
            let first = adjust(links, acc, lvl, c, *f);
            if first.1 {
                lemma_adjust_by(links, rank, first.0, lvl, c, *x);
                if out.1 {
                    assert(out.0 =~= lower_reached(links, acc, lvl, t));
                }
            }
        },
        Ty::TUVar(h) => {
            if h != c {
                match links[h as int] {
                    Hole::Filled(u) => {
                        lemma_adjust_by(links, rank, acc, lvl, c, *u);
                        if out.1 {
                            assert(out.0 =~= lower_reached(links, acc, lvl, t));
                        }
                    },
                    _ => {
                        assert(out.0 =~= lower_reached(links, acc, lvl, t));
                    },
                }
            }
        },
    }
}

/// Binds the unresolved variable `uvar` to `b`, after lowering the levels of
/// the unresolved variables that `b` reaches. It succeeds exactly where `uvar`
/// is unresolved and `b` does not reach it; then no unresolved variable that
/// `b` reaches is left with a level above the one `uvar` had.
pub fn unify_uvar(_ctx: &Context, store: &mut Store, uvar: usize, b: &Ty) -> (res: Result<
    (),
    TypeError,
>)
    requires
        old(store).wf(),
        uvar < old(store)@.len(),
        ty_in(*b, old(store)@.len()),
    ensures
        final(store).wf(),
        (final(store)@, res) == bind_spec(old(store)@, uvar as int, *b),
        res is Ok <==> old(store)@[uvar as int] is Empty && !reaches(
            old(store)@,
            *b,
            uvar as int,
        ),
        res is Ok ==> forall|i: int|
            0 <= i < final(store)@.len() && reaches(final(store)@, *b, i) ==> (
            #[trigger] final(store)@[i] matches Hole::Empty { lvl: l } ==> old(
                store,
            )@[uvar as int] matches Hole::Empty { lvl } && l <= lvl),
{
    let hole = store.get(uvar).clone();
    if let Hole::Empty { lvl } = hole {
        let ghost links = store@;
        let ghost rank = witness(links);
        proof {
            lemma_adjust(links, links, lvl, uvar as int, *b);
        }
        let ok = lower_levels(store, lvl, uvar, b, Ghost(links), Ghost(rank));
        proof {
            lemma_same_links_ranked(links, store@, rank);
            lemma_same_links_reaches(links, store@, *b, uvar as int);
        }
        if !ok {
            return Err(TypeError::CantUnify);
        }
        let ghost walked = store@;
        proof {
            lemma_fill_well_formed(walked, uvar as int, *b);
        }
        store.set(uvar, Hole::Filled(Box::new(b.clone())));
        proof {
            assert forall|i: int|
                0 <= i < store@.len() && reaches(store@, *b, i) implies (
            #[trigger] store@[i] matches Hole::Empty { lvl: l } ==> l <= lvl) by {
                lemma_fill_reaches(walked, uvar as int, *b, *b, i);
                lemma_same_links_reaches(links, walked, *b, i);
            }
        }
        Ok(())
    } else {
        Err(TypeError::CantUnify)
    }
}

/// Unifying two variables. Where they are two different cells and both are
/// unresolved, the one of the higher level is redirected to the other, and of
/// two of one level the first; in every other case nothing changes.
pub open spec fn merge_spec(cells: Seq<Hole>, a: int, b: int) -> Seq<Hole> {
    match (cells[a], cells[b]) {
        (Hole::Empty { lvl: a_lvl }, Hole::Empty { lvl: b_lvl }) => if a == b {
            cells
        } else if a_lvl < b_lvl {
            cells.update(b, Hole::Filled(Box::new(Ty::TUVar(a as usize))))
        } else {
            cells.update(a, Hole::Filled(Box::new(Ty::TUVar(b as usize))))
        },
        _ => cells,
    }
}

/// Unifies the variables `a` and `b`; it never fails.
pub fn unify_two_uvars(store: &mut Store, a: usize, b: usize) -> (res: Result<(), TypeError>)
    requires
        old(store).wf(),
        a < old(store)@.len(),
        b < old(store)@.len(),
    ensures
        final(store).wf(),
        res == Ok::<(), TypeError>(()),
        final(store)@ == merge_spec(old(store)@, a as int, b as int),
{
    let mut replace_a = false;
    let mut replace_b = false;
    if a != b {
        if let Hole::Empty { lvl: a_lvl } = store.get(a) {
            if let Hole::Empty { lvl: b_lvl } = store.get(b) {
                if *a_lvl < *b_lvl {
                    replace_b = true;
                } else {
                    replace_a = true;
                }
            }
        }
    }
    if replace_b {
        proof {
            lemma_fill_well_formed(store@, b as int, Ty::TUVar(a));
        }
        store.set(b, Hole::Filled(Box::new(Ty::TUVar(a))));
    }
    if replace_a {
        proof {
            lemma_fill_well_formed(store@, a as int, Ty::TUVar(b));
        }
        store.set(a, Hole::Filled(Box::new(Ty::TUVar(b))));
    }
    Ok(())
}

/// Unification as a function of the cells and the two types: the cells after
/// it and its result. Two variables are merged, a variable and another type
/// are bound, two constants must be equal, and two arrows or two applications
/// are unified part by part, first the left parts and, if that succeeded, the
/// right parts on the cells that the left parts left; the kind that an
/// application carries is not compared. Every other pair fails.
pub open spec fn unify_spec(cells: Seq<Hole>, x: Ty, y: Ty) -> (Seq<Hole>, Result<(), TypeError>)
    decreases x,
{
    match (x, y) {
        (Ty::TUVar(a), Ty::TUVar(b)) => (merge_spec(cells, a as int, b as int), Ok(())),
        (Ty::TUVar(a), _) => bind_spec(cells, a as int, y),
        (_, Ty::TUVar(b)) => bind_spec(cells, b as int, x),
        (Ty::TCon(a), Ty::TCon(b)) => if a == b {
            (cells, Ok(()))
        } else {
            (cells, Err(TypeError::CantUnify))
        },
        (Ty::TFun(a, b), Ty::TFun(c, d)) => {
            let left = unify_spec(cells, *a, *c);
            if left.1 is Ok {
                unify_spec(left.0, *b, *d)
            } else {
                left
            }
        },
        (Ty::TApp(_, f, a), Ty::TApp(_, g, b)) => {
            let left = unify_spec(cells, *f, *g);
            if left.1 is Ok {
                unify_spec(left.0, *a, *b)
            } else {
                left
            }
        },
        _ => (cells, Err(TypeError::CantUnify)),
    }
}

/// Unifies `x` and `y` in `store`, as `unify_spec` says. A type without
/// variables unifies with itself, and no cell changes. Whether it succeeds or
/// fails, a variable that it fills reaches afterwards no unresolved variable
/// of a level above the one it had.
pub fn unify(ctx: &Context, store: &mut Store, x: &Ty, y: &Ty) -> (res: Result<(), TypeError>)
    requires
        old(store).wf(),
        ty_in(*x, old(store)@.len()),
        ty_in(*y, old(store)@.len()),
    ensures
        final(store).wf(),
        final(store)@.len() == old(store)@.len(),
        (final(store)@, res) == unify_spec(old(store)@, *x, *y),
        ground(*x) && *x == *y ==> res is Ok && final(store)@ == old(store)@,
        settled(old(store)@, final(store)@),
    decreases *x,
{
    proof {
        store.lemma_len_fits();
        if ground(*x) && *x == *y {
            lemma_unify_ground_reflexive(store@, *x);
        }
        lemma_unify_levels(store@, *x, *y);
    }
    match (x, y) {
        (Ty::TUVar(uvar_a), Ty::TUVar(uvar_b)) => unify_two_uvars(store, *uvar_a, *uvar_b),
        (Ty::TUVar(uvar), b) => {
            proof {
                lemma_bind_len(store@, *uvar as int, *b);
            }
            unify_uvar(ctx, store, *uvar, b)
        },
        (a, Ty::TUVar(uvar)) => {
            proof {
                lemma_bind_len(store@, *uvar as int, *a);
            }
            unify_uvar(ctx, store, *uvar, a)
        },
        (Ty::TCon(a), Ty::TCon(b)) => {
            if *a == *b {
                Ok(())
            } else {
                Err(TypeError::CantUnify)
            }
        },
        (Ty::TFun(a, b), Ty::TFun(c, d)) => {
            match unify(ctx, store, a, c) {
                Ok(()) => unify(ctx, store, b, d),
                Err(e) => Err(e),
            }
        },
        (Ty::TApp(_, f, x), Ty::TApp(_, g, y)) => {
            match unify(ctx, store, f, g) {
                Ok(()) => unify(ctx, store, x, y),
                Err(e) => Err(e),
            }
        },
        _ => Err(TypeError::CantUnify),
    }
}

/// Binding keeps the number of cells.
pub proof fn lemma_bind_len(cells: Seq<Hole>, c: int, t: Ty)
    requires
        well_formed(cells),
        0 <= c < cells.len(),
        ty_in(t, cells.len()),
    ensures
        bind_spec(cells, c, t).0.len() == cells.len(),
{
    if let Hole::Empty { lvl } = cells[c] {
        lemma_adjust(cells, cells, lvl, c, t);
    }
}

/// `after` is `before` with some unresolved variables turned into bound
/// variables of a scheme.
pub open spec fn abstracted(before: Seq<Hole>, after: Seq<Hole>) -> bool {
    &&& after.len() == before.len()
    &&& forall|i: int|
        0 <= i < before.len() ==> #[trigger] after[i] == before[i] || (before[i] is Empty
            && after[i] is Generalized)
}

/// The walk of generalization over `t` at level `lvl`. It follows filled
/// cells as `links` has them and puts their content in their place. An
/// unresolved variable of a level above `lvl` becomes in `acc` the bound
/// variable of index `counter`, which then goes up by one, so that the
/// variables are numbered in the order in which the walk first meets them.
/// Every other variable stays as it is. The result is the cells, the counter
/// and the type that the walk leaves.
pub open spec fn gen_walk(links: Seq<Hole>, acc: Seq<Hole>, lvl: u32, counter: nat, t: Ty) -> (
    Seq<Hole>,
    nat,
    Ty,
)
    decreases height(witness(links), t), t,
    when well_formed(links) && ty_in(t, links.len())
{
    match t {
        Ty::TCon(id) => (acc, counter, Ty::TCon(id)),
        Ty::TFun(a, b) => {
            let left = gen_walk(links, acc, lvl, counter, *a);
            let right = gen_walk(links, left.0, lvl, left.1, *b);
            (right.0, right.1, Ty::TFun(Box::new(left.2), Box::new(right.2)))
        },
        Ty::TApp(k, f, x) => {
            let left = gen_walk(links, acc, lvl, counter, *f);
            let right = gen_walk(links, left.0, lvl, left.1, *x);
            (right.0, right.1, Ty::TApp(k, Box::new(left.2), Box::new(right.2)))
        },
        Ty::TUVar(h) => match links[h as int] {
            Hole::Filled(u) => gen_walk(links, acc, lvl, counter, *u),
            _ => match acc[h as int] {
                Hole::Empty { lvl: l } => if l > lvl {
                    (acc.update(h as int, Hole::Generalized(counter as usize)), counter + 1, t)
                } else {
                    (acc, counter, t)
                },
                _ => (acc, counter, t),
            },
        },
    }
}

/// Generalization of `t` at level `lvl`: the cells after it and the scheme.
pub open spec fn generalize_spec(cells: Seq<Hole>, lvl: u32, t: Ty) -> (Seq<Hole>, TyScheme) {
    let walk = gen_walk(cells, cells, lvl, 0, t);
    (walk.0, TyScheme { num_vars: walk.1 as usize, ty: Box::new(walk.2) })
}

/// The cells that were unresolved in `links` and are bound variables in `acc`.
spec fn converted(links: Seq<Hole>, acc: Seq<Hole>) -> Set<int> {
    Set::new(|i: int| 0 <= i < links.len() && links[i] is Empty && acc[i] is Generalized)
}

proof fn lemma_converted_start(links: Seq<Hole>)
    ensures
        converted(links, links).len() == 0,
{
    assert(converted(links, links) =~= Set::<int>::empty());
}

proof fn lemma_converted_step(links: Seq<Hole>, acc: Seq<Hole>, h: int, index: usize)
    requires
        abstracted(links, acc),
        0 <= h < links.len(),
        acc[h] is Empty,
    ensures
        converted(links, acc.update(h, Hole::Generalized(index))).len() == converted(
            links,
            acc,
        ).len() + 1,
        converted(links, acc).len() + 1 <= links.len(),
{
    let before = converted(links, acc);
    let after = converted(links, acc.update(h, Hole::Generalized(index)));
    let all = set_int_range(0, links.len() as int);
    lemma_int_range(0, links.len() as int);
    assert(before.subset_of(all));
    assert(after.subset_of(all));
    lemma_len_subset(before, all);
    lemma_len_subset(after, all);
    assert(after =~= before.insert(h));
}

proof fn lemma_gen_walk_count(
    links: Seq<Hole>,
    rank: Seq<nat>,
    acc: Seq<Hole>,
    lvl: u32,
    counter: nat,
    t: Ty,
)
    requires
        ranked(links, rank),
        abstracted(links, acc),
        ty_in(t, links.len()),
        links.len() <= usize::MAX,
        counter == converted(links, acc).len(),
    ensures
        abstracted(links, gen_walk(links, acc, lvl, counter, t).0),
        gen_walk(links, acc, lvl, counter, t).1 == converted(
            links,
            gen_walk(links, acc, lvl, counter, t).0,
        ).len(),
        counter <= gen_walk(links, acc, lvl, counter, t).1 <= links.len(),
    decreases height(rank, t), t,
{
    let all = set_int_range(0, links.len() as int);
    lemma_int_range(0, links.len() as int);
    assert(converted(links, acc).subset_of(all));
    lemma_len_subset(converted(links, acc), all);
    match t {
        Ty::TCon(_) => {},
        Ty::TFun(a, b) => {
            lemma_gen_walk_count(links, rank, acc, lvl, counter, *a);
            let left = gen_walk(links, acc, lvl, counter, *a);
            lemma_gen_walk_count(links, rank, left.0, lvl, left.1, *b);
        },
        Ty::TApp(_, f, x) => {
            lemma_gen_walk_count(links, rank, acc, lvl, counter, *f);
            let left = gen_walk(links, acc, lvl, counter, *f);
            lemma_gen_walk_count(links, rank, left.0, lvl, left.1, *x);
        },
        Ty::TUVar(h) => {
            match links[h as int] {
                Hole::Filled(u) => {
                    lemma_gen_walk_count(links, rank, acc, lvl, counter, *u);
                },
                _ => {
                    if let Hole::Empty { lvl: l } = acc[h as int] {
                        if l > lvl {
                            lemma_converted_step(links, acc, h as int, counter as usize);
                        }
                    }
                },
            }
        },
    }
}

/// The type that the walk of generalization leaves is the type it walked
/// over, resolved.
pub proof fn lemma_gen_walk_resolves(
    links: Seq<Hole>,
    acc: Seq<Hole>,
    lvl: u32,
    counter: nat,
    t: Ty,
)
    requires
        well_formed(links),
        ty_in(t, links.len()),
    ensures
        gen_walk(links, acc, lvl, counter, t).2 == resolved(links, t),
{
    lemma_gen_walk_resolves_by(links, witness(links), acc, lvl, counter, t);
}

proof fn lemma_gen_walk_resolves_by(
    links: Seq<Hole>,
    rank: Seq<nat>,
    acc: Seq<Hole>,
    lvl: u32,
    counter: nat,
    t: Ty,
)
    requires
        ranked(links, rank),
        ty_in(t, links.len()),
    ensures
        gen_walk(links, acc, lvl, counter, t).2 == resolved(links, t),
    decreases height(rank, t), t,
{
    match t {
        Ty::TCon(_) => {},
        Ty::TFun(a, b) => {
            lemma_gen_walk_resolves_by(links, rank, acc, lvl, counter, *a);
            let left = gen_walk(links, acc, lvl, counter, *a);
            lemma_gen_walk_resolves_by(links, rank, left.0, lvl, left.1, *b);
        },
        Ty::TApp(_, f, x) => {
            lemma_gen_walk_resolves_by(links, rank, acc, lvl, counter, *f);
            let left = gen_walk(links, acc, lvl, counter, *f);
            lemma_gen_walk_resolves_by(links, rank, left.0, lvl, left.1, *x);
        },
        Ty::TUVar(h) => {
            if let Hole::Filled(u) = links[h as int] {
                lemma_gen_walk_resolves_by(links, rank, acc, lvl, counter, *u);
            }
        },
    }
}

/// Generalization binds at most as many variables as there are cells.
pub proof fn lemma_generalize_count(cells: Seq<Hole>, lvl: u32, t: Ty)
    requires
        well_formed(cells),
        ty_in(t, cells.len()),
        cells.len() <= usize::MAX,
    ensures
        gen_walk(cells, cells, lvl, 0, t).1 <= cells.len(),
        generalize_spec(cells, lvl, t).1.num_vars == gen_walk(cells, cells, lvl, 0, t).1,
{
    lemma_converted_start(cells);
    lemma_gen_walk_count(cells, witness(cells), cells, lvl, 0, t);
}

/// The state of one generalization: the level at which it closes, and the
/// number of variables bound so far.
struct Generalize {
    lvl: u32,
    counter: usize,
}

impl Generalize {
    fn go(
        &mut self,
        store: &mut Store,
        ty: &Ty,
        Ghost(links): Ghost<Seq<Hole>>,
        Ghost(rank): Ghost<Seq<nat>>,
    ) -> (res: Ty)
        requires
            ranked(links, rank),
            abstracted(links, old(store)@),
            ty_in(*ty, links.len()),
            old(self).counter == converted(links, old(store)@).len(),
        ensures
            abstracted(links, final(store)@),
            final(self).lvl == old(self).lvl,
            final(self).counter == converted(links, final(store)@).len(),
            (final(store)@, final(self).counter as nat, res) == gen_walk(
                links,
                old(store)@,
                old(self).lvl,
                old(self).counter as nat,
                *ty,
            ),
            ty_in(res, links.len()),
        decreases height(rank, *ty), *ty,
    {
        match ty {
            Ty::TCon(type_id) => Ty::TCon(*type_id),
            Ty::TFun(a, b) => {
                let left = self.go(store, a, Ghost(links), Ghost(rank));
                let right = self.go(store, b, Ghost(links), Ghost(rank));
                Ty::TFun(Box::new(left), Box::new(right))
            },
            Ty::TApp(k, f, x) => {
                let left = self.go(store, f, Ghost(links), Ghost(rank));
                let right = self.go(store, x, Ghost(links), Ghost(rank));
                Ty::TApp(k.clone(), Box::new(left), Box::new(right))
            },
            Ty::TUVar(cell) => {
                let hole = store.get(*cell).clone();
                match hole {
                    Hole::Filled(t) => self.go(store, &t, Ghost(links), Ghost(rank)),
                    Hole::Empty { lvl: hole_lvl } => {
                        if hole_lvl > self.lvl {
                            proof {
                                store.lemma_len_fits();
                                lemma_converted_step(links, store@, *cell as int, self.counter);
                            }
                            store.set(*cell, Hole::Generalized(self.counter));
                            self.counter = self.counter + 1;
                        }
                        Ty::TUVar(*cell)
                    },
                    Hole::Generalized(_) => Ty::TUVar(*cell),
                }
            },
        }
    }
}

/// Closes `ty` over the unresolved variables that it reaches and whose level
/// is above `lvl`: they become the bound variables of the scheme, numbered
/// from 0 in the order in which they are first met. The scheme's type is `ty`
/// with every filled variable replaced by its content. Where `ty` reaches no
/// such variable, no cell changes.
pub fn generalize(store: &mut Store, lvl: u32, ty: &Ty) -> (scheme: TyScheme)
    requires
        old(store).wf(),
        ty_in(*ty, old(store)@.len()),
    ensures
        final(store).wf(),
        final(store)@.len() == old(store)@.len(),
        (final(store)@, scheme) == generalize_spec(old(store)@, lvl, *ty),
        *scheme.ty == resolved(old(store)@, *ty),
        levels_within(old(store)@, *ty, lvl) ==> final(store)@ == old(store)@ && scheme.num_vars
            == 0,
        ty_in(*scheme.ty, final(store)@.len()),
{
    let ghost links = store@;
    let ghost rank = witness(links);
    proof {
        lemma_gen_walk_resolves(links, links, lvl, 0, *ty);
        if levels_within(links, *ty, lvl) {
            lemma_generalize_idle(links, lvl, *ty);
        }
    }
    let mut gen_struct = Generalize { lvl, counter: 0 };
    proof {
        lemma_converted_start(links);
    }
    let generalized = gen_struct.go(store, ty, Ghost(links), Ghost(rank));
    proof {
        lemma_same_links_ranked(links, store@, rank);
    }
    TyScheme { num_vars: gen_struct.counter, ty: Box::new(generalized) }
}

/// `t` with each variable that `cells` holds as the bound variable of an
/// index `i` below `num_vars` replaced by the variable of handle `base + i`.
/// Filled cells are not looked into.
pub open spec fn inst(cells: Seq<Hole>, base: nat, num_vars: nat, t: Ty) -> Ty
    decreases t,
{
    match t {
        Ty::TCon(id) => Ty::TCon(id),
        Ty::TFun(a, b) => Ty::TFun(
            Box::new(inst(cells, base, num_vars, *a)),
            Box::new(inst(cells, base, num_vars, *b)),
        ),
        Ty::TApp(k, f, x) => Ty::TApp(
            k,
            Box::new(inst(cells, base, num_vars, *f)),
            Box::new(inst(cells, base, num_vars, *x)),
        ),
        Ty::TUVar(h) => match cells[h as int] {
            Hole::Generalized(i) => if i < num_vars {
                Ty::TUVar((base + i) as usize)
            } else {
                t
            },
            _ => t,
        },
    }
}

/// `n` unresolved variables of level `lvl`.
pub open spec fn fresh_cells(n: nat, lvl: u32) -> Seq<Hole> {
    Seq::new(n, |i: int| Hole::Empty { lvl })
}

/// Instantiation of `scheme` at level `lvl`: the cells after it, which are
/// `cells` and one new unresolved variable for each bound variable of the
/// scheme, and the scheme's type over those new variables.
pub open spec fn instantiate_spec(cells: Seq<Hole>, lvl: u32, scheme: TyScheme) -> (Seq<Hole>, Ty) {
    (
        cells + fresh_cells(scheme.num_vars as nat, lvl),
        inst(cells, cells.len(), scheme.num_vars as nat, *scheme.ty),
    )
}

fn instantiate_walk(store: &Store, base: usize, num_vars: usize, ty: &Ty) -> (res: Ty)
    requires
        base + num_vars <= store@.len(),
        ty_in(*ty, base as nat),
    ensures
        res == inst(store@.take(base as int), base as nat, num_vars as nat, *ty),
        ty_in(res, store@.len()),
    decreases *ty,
{
    match ty {
        Ty::TCon(type_id) => Ty::TCon(*type_id),
        Ty::TFun(a, b) => Ty::TFun(
            Box::new(instantiate_walk(store, base, num_vars, a)),
            Box::new(instantiate_walk(store, base, num_vars, b)),
        ),
        Ty::TApp(k, f, x) => Ty::TApp(
            k.clone(),
            Box::new(instantiate_walk(store, base, num_vars, f)),
            Box::new(instantiate_walk(store, base, num_vars, x)),
        ),
        Ty::TUVar(uvar) => {
            proof {
                store.lemma_len_fits();
            }
            match store.get(*uvar) {
                Hole::Generalized(i) => {
                    if *i < num_vars {
                        Ty::TUVar(base + *i)
                    } else {
                        Ty::TUVar(*uvar)
                    }
                },
                _ => Ty::TUVar(*uvar),
            }
        },
    }
}

/// A fresh instance of `ty_scheme`: one new unresolved variable of level
/// `lvl` for each of its bound variables, and its type with every occurrence
/// of the bound variable `i` replaced by the `i`-th of them. Every other
/// variable is shared with the scheme.
pub fn instantiate(store: &mut Store, lvl: u32, ty_scheme: &TyScheme) -> (res: Ty)
    requires
        old(store).wf(),
        ty_in(*ty_scheme.ty, old(store)@.len()),
    ensures
        final(store).wf(),
        (final(store)@, res) == instantiate_spec(old(store)@, lvl, *ty_scheme),
        ty_in(res, final(store)@.len()),
{
    let num_vars = ty_scheme.num_vars;
    let base = store.len();
    let mut made: usize = 0;
    while made < num_vars
        invariant
            made <= num_vars,
            store.wf(),
            store@ == old(store)@ + fresh_cells(made as nat, lvl),
        decreases num_vars - made,
    {
        store.fresh(lvl);
        made = made + 1;
        proof {
            assert(store@ =~= old(store)@ + fresh_cells(made as nat, lvl));
        }
    }
    proof {
        assert(store@.take(base as int) =~= old(store)@);
    }
    instantiate_walk(store, base, num_vars, &ty_scheme.ty)
}

} // verus!
