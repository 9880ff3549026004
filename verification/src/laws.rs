//! What holds of unification, generalization and instantiation on all
//! inputs, proved from their definitions.
use vstd::prelude::*;
use crate::check::{Hole, Ty, TyScheme};
use crate::error::TypeError;
use crate::hm::{
    abstracted, adjust, bind_spec, fresh_cells, gen_walk, generalize_spec, inst, instantiate_spec,
    lemma_adjust, lemma_generalize_count, lowered, merge_spec, unify_spec,
};
use crate::store::{
    height, lemma_fill_reaches, lemma_fill_well_formed, lemma_same_links_ranked,
    lemma_same_links_reaches, ranked, reaches, ty_in, well_formed, witness,
};

verus! {

/// `t` holds no variable.
pub open spec fn ground(t: Ty) -> bool
    decreases t,
{
    match t {
        Ty::TCon(_) => true,
        Ty::TFun(a, b) => ground(*a) && ground(*b),
        Ty::TApp(_, f, x) => ground(*f) && ground(*x),
        Ty::TUVar(_) => false,
    }
}

/// Unifying a type without variables with itself succeeds and changes no
/// cell.
pub proof fn lemma_unify_ground_reflexive(cells: Seq<Hole>, t: Ty)
    requires
        ground(t),
    ensures
        unify_spec(cells, t, t) == (cells, Ok::<(), TypeError>(())),
    decreases t,
{
    match t {
        Ty::TCon(_) => {},
        Ty::TFun(a, b) => {
            lemma_unify_ground_reflexive(cells, *a);
            lemma_unify_ground_reflexive(cells, *b);
        },
        Ty::TApp(_, f, x) => {
            lemma_unify_ground_reflexive(cells, *f);
            lemma_unify_ground_reflexive(cells, *x);
        },
        Ty::TUVar(_) => {},
    }
}

/// No unresolved variable that `t` reaches has a level above `lvl`.
pub open spec fn levels_within(cells: Seq<Hole>, t: Ty, lvl: u32) -> bool {
    forall|i: int|
        0 <= i < cells.len() && #[trigger] reaches(cells, t, i) ==> (cells[i] matches Hole::Empty {
            lvl: l,
        } ==> l <= lvl)
}

/// How cells change under unification: none is added, a filled cell and a
/// bound variable of a scheme stay as they are, and an unresolved variable
/// either stays unresolved, at its level or a lower one, or is filled with a
/// type that reaches no unresolved variable of a level above the one it had.
pub open spec fn settled(before: Seq<Hole>, after: Seq<Hole>) -> bool {
    &&& after.len() == before.len()
    &&& forall|c: int|
        0 <= c < before.len() ==> match #[trigger] before[c] {
            Hole::Empty { lvl } => match after[c] {
                Hole::Empty { lvl: lower } => lower <= lvl,
                Hole::Filled(t) => ty_in(*t, after.len()) && levels_within(after, *t, lvl),
                Hole::Generalized(_) => false,
            },
            _ => after[c] == before[c],
        }
}

/// What a type reaches, a part of it reaches.
proof fn lemma_levels_within_content(cells: Seq<Hole>, h: int, lvl: u32)
    requires
        well_formed(cells),
        0 <= h < cells.len(),
        h <= usize::MAX,
        levels_within(cells, Ty::TUVar(h as usize), lvl),
    ensures
        cells[h] matches Hole::Filled(u) ==> levels_within(cells, *u, lvl),
        cells[h] matches Hole::Empty { lvl: l } ==> l <= lvl,
{
    let t = Ty::TUVar(h as usize);
    assert(reaches(cells, t, h));
    if let Hole::Filled(u) = cells[h] {
        assert forall|i: int| 0 <= i < cells.len() && #[trigger] reaches(cells, *u, i) implies (
        cells[i] matches Hole::Empty { lvl: l } ==> l <= lvl) by {
            assert(reaches(cells, t, i));
        }
    }
}

/// A bound on the levels that a type reaches outlives every change that
/// unification makes.
proof fn lemma_levels_persist(
    before: Seq<Hole>,
    after: Seq<Hole>,
    rank: Seq<nat>,
    t: Ty,
    lvl: u32,
    i: int,
)
    requires
        well_formed(before),
        ranked(after, rank),
        settled(before, after),
        ty_in(t, before.len()),
        levels_within(before, t, lvl),
        0 <= i < after.len(),
        reaches(after, t, i),
    ensures
        after[i] matches Hole::Empty { lvl: l } ==> l <= lvl,
    decreases height(rank, t), t,
{
    match t {
        Ty::TCon(_) => {},
        Ty::TFun(a, b) => {
            assert forall|j: int| 0 <= j < before.len() && #[trigger] reaches(before, *a, j) implies (
            before[j] matches Hole::Empty { lvl: l } ==> l <= lvl) by {
                assert(reaches(before, t, j));
            }
            assert forall|j: int| 0 <= j < before.len() && #[trigger] reaches(before, *b, j) implies (
            before[j] matches Hole::Empty { lvl: l } ==> l <= lvl) by {
                assert(reaches(before, t, j));
            }
            if reaches(after, *a, i) {
                lemma_levels_persist(before, after, rank, *a, lvl, i);
            } else {
                lemma_levels_persist(before, after, rank, *b, lvl, i);
            }
        },
        Ty::TApp(_, f, x) => {
            assert forall|j: int| 0 <= j < before.len() && #[trigger] reaches(before, *f, j) implies (
            before[j] matches Hole::Empty { lvl: l } ==> l <= lvl) by {
                assert(reaches(before, t, j));
            }
            assert forall|j: int| 0 <= j < before.len() && #[trigger] reaches(before, *x, j) implies (
            before[j] matches Hole::Empty { lvl: l } ==> l <= lvl) by {
                assert(reaches(before, t, j));
            }
            if reaches(after, *f, i) {
                lemma_levels_persist(before, after, rank, *f, lvl, i);
            } else {
                lemma_levels_persist(before, after, rank, *x, lvl, i);
            }
        },
        Ty::TUVar(h) => {
            lemma_levels_within_content(before, h as int, lvl);
            let was = before[h as int];
            if h != i {
                if let Hole::Filled(w) = after[h as int] {
                    assert(reaches(after, *w, i));
                    match was {
                        Hole::Filled(_) => {
                            lemma_levels_persist(before, after, rank, *w, lvl, i);
                        },
                        Hole::Empty { lvl: own } => {
                            assert(levels_within(after, *w, own));
                        },
                        Hole::Generalized(_) => {},
                    }
                }
            }
        },
    }
}

/// Two changes of the kind that unification makes, one after the other, are
/// one such change.
pub proof fn lemma_settled_twice(first: Seq<Hole>, second: Seq<Hole>, third: Seq<Hole>)
    requires
        well_formed(second),
        well_formed(third),
        settled(first, second),
        settled(second, third),
    ensures
        settled(first, third),
{
    let rank = witness(third);
    assert forall|c: int| 0 <= c < first.len() implies match #[trigger] first[c] {
        Hole::Empty { lvl } => match third[c] {
            Hole::Empty { lvl: lower } => lower <= lvl,
            Hole::Filled(t) => ty_in(*t, third.len()) && levels_within(third, *t, lvl),
            Hole::Generalized(_) => false,
        },
        _ => third[c] == first[c],
    } by {
        let mid = second[c];
        if let Hole::Empty { lvl } = first[c] {
            match mid {
                Hole::Empty { lvl: lower } => {
                    if let Hole::Filled(t) = third[c] {
                        assert(levels_within(third, *t, lower));
                        assert(levels_within(third, *t, lvl));
                    }
                },
                Hole::Filled(t) => {
                    assert(third[c] == mid);
                    assert forall|i: int|
                        0 <= i < third.len() && #[trigger] reaches(third, *t, i) implies (
                    third[i] matches Hole::Empty { lvl: l } ==> l <= lvl) by {
                        lemma_levels_persist(second, third, rank, *t, lvl, i);
                    }
                },
                Hole::Generalized(_) => {},
            }
        } else {
            assert(mid == first[c]);
        }
    }
}

/// Binding a variable changes the cells as `settled` says.
pub proof fn lemma_bind_settled(cells: Seq<Hole>, c: int, t: Ty)
    requires
        well_formed(cells),
        0 <= c < cells.len(),
        ty_in(t, cells.len()),
    ensures
        well_formed(bind_spec(cells, c, t).0),
        settled(cells, bind_spec(cells, c, t).0),
{
    let after = bind_spec(cells, c, t).0;
    if let Hole::Empty { lvl } = cells[c] {
        lemma_adjust(cells, cells, lvl, c, t);
        let walk = adjust(cells, cells, lvl, c, t);
        lemma_same_links_ranked(cells, walk.0, witness(cells));
        if walk.1 {
            lemma_same_links_reaches(cells, walk.0, t, c);
            lemma_fill_well_formed(walk.0, c, t);
            assert forall|i: int| 0 <= i < after.len() && #[trigger] reaches(after, t, i) implies (
            after[i] matches Hole::Empty { lvl: l } ==> l <= lvl) by {
                lemma_fill_reaches(walk.0, c, t, t, i);
                lemma_same_links_reaches(cells, walk.0, t, i);
            }
            assert(levels_within(after, t, lvl));
            assert(settled(cells, after));
        } else {
            assert(settled(cells, after));
        }
    } else {
        assert(settled(cells, after));
    }
}

/// Merging two variables changes the cells as `settled` says.
pub proof fn lemma_merge_settled(cells: Seq<Hole>, a: int, b: int)
    requires
        well_formed(cells),
        0 <= a < cells.len(),
        0 <= b < cells.len(),
        cells.len() <= usize::MAX,
    ensures
        well_formed(merge_spec(cells, a, b)),
        settled(cells, merge_spec(cells, a, b)),
{
    let after = merge_spec(cells, a, b);
    match (cells[a], cells[b]) {
        (Hole::Empty { lvl: a_lvl }, Hole::Empty { lvl: b_lvl }) => {
            if a == b {
                assert(settled(cells, after));
            } else if a_lvl < b_lvl {
                let to = Ty::TUVar(a as usize);
                lemma_fill_well_formed(cells, b, to);
                assert forall|i: int|
                    0 <= i < after.len() && #[trigger] reaches(after, to, i) implies (
                after[i] matches Hole::Empty { lvl: l } ==> l <= b_lvl) by {
                    assert(i == a);
                }
                assert(settled(cells, after));
            } else {
                let to = Ty::TUVar(b as usize);
                lemma_fill_well_formed(cells, a, to);
                assert forall|i: int|
                    0 <= i < after.len() && #[trigger] reaches(after, to, i) implies (
                after[i] matches Hole::Empty { lvl: l } ==> l <= a_lvl) by {
                    assert(i == b);
                }
                assert(settled(cells, after));
            }
        },
        _ => {
            assert(settled(cells, after));
        },
    }
}

/// Level monotonicity. Whatever unification does to well-formed cells, it
/// leaves them well-formed, and every variable that it fills reaches, in the
/// cells it leaves, no unresolved variable of a level above the one that the
/// filled variable had.
pub proof fn lemma_unify_levels(cells: Seq<Hole>, x: Ty, y: Ty)
    requires
        well_formed(cells),
        cells.len() <= usize::MAX,
        ty_in(x, cells.len()),
        ty_in(y, cells.len()),
    ensures
        well_formed(unify_spec(cells, x, y).0),
        settled(cells, unify_spec(cells, x, y).0),
    decreases x,
{
    let after = unify_spec(cells, x, y).0;
    match (x, y) {
        (Ty::TUVar(a), Ty::TUVar(b)) => {
            lemma_merge_settled(cells, a as int, b as int);
        },
        (Ty::TUVar(a), _) => {
            lemma_bind_settled(cells, a as int, y);
        },
        (_, Ty::TUVar(b)) => {
            lemma_bind_settled(cells, b as int, x);
        },
        (Ty::TFun(a, b), Ty::TFun(c, d)) => {
            lemma_unify_levels(cells, *a, *c);
            let left = unify_spec(cells, *a, *c);
            if left.1 is Ok {
                lemma_unify_levels(left.0, *b, *d);
                lemma_settled_twice(cells, left.0, after);
            }
        },
        (Ty::TApp(_, f, a), Ty::TApp(_, g, b)) => {
            lemma_unify_levels(cells, *f, *g);
            let left = unify_spec(cells, *f, *g);
            if left.1 is Ok {
                lemma_unify_levels(left.0, *a, *b);
                lemma_settled_twice(cells, left.0, after);
            }
        },
        _ => {
            assert(settled(cells, after));
        },
    }
}

/// Where `t` reaches no unresolved variable of a level above `lvl`, the walk
/// of generalization changes nothing.
proof fn lemma_gen_walk_idle(
    links: Seq<Hole>,
    rank: Seq<nat>,
    acc: Seq<Hole>,
    lvl: u32,
    counter: nat,
    t: Ty,
)
    requires
        ranked(links, rank),
        acc.len() == links.len(),
        ty_in(t, links.len()),
        forall|i: int|
            0 <= i < links.len() && #[trigger] reaches(links, t, i) && !(links[i] is Filled) ==> !(
            acc[i] matches Hole::Empty { lvl: l } && l > lvl),
    ensures
        gen_walk(links, acc, lvl, counter, t).0 == acc,
        gen_walk(links, acc, lvl, counter, t).1 == counter,
    decreases height(rank, t), t,
{
    match t {
        Ty::TCon(_) => {},
        Ty::TFun(a, b) => {
            assert forall|i: int|
                0 <= i < links.len() && #[trigger] reaches(links, *a, i) && !(links[i] is Filled)
                    implies !(acc[i] matches Hole::Empty { lvl: l } && l > lvl) by {
                assert(reaches(links, t, i));
            }
            assert forall|i: int|
                0 <= i < links.len() && #[trigger] reaches(links, *b, i) && !(links[i] is Filled)
                    implies !(acc[i] matches Hole::Empty { lvl: l } && l > lvl) by {
                assert(reaches(links, t, i));
            }
            lemma_gen_walk_idle(links, rank, acc, lvl, counter, *a);
            lemma_gen_walk_idle(links, rank, acc, lvl, counter, *b);
        },
        Ty::TApp(_, f, x) => {
            assert forall|i: int|
                0 <= i < links.len() && #[trigger] reaches(links, *f, i) && !(links[i] is Filled)
                    implies !(acc[i] matches Hole::Empty { lvl: l } && l > lvl) by {
                assert(reaches(links, t, i));
            }
            assert forall|i: int|
                0 <= i < links.len() && #[trigger] reaches(links, *x, i) && !(links[i] is Filled)
                    implies !(acc[i] matches Hole::Empty { lvl: l } && l > lvl) by {
                assert(reaches(links, t, i));
            }
            lemma_gen_walk_idle(links, rank, acc, lvl, counter, *f);
            lemma_gen_walk_idle(links, rank, acc, lvl, counter, *x);
        },
        Ty::TUVar(h) => {
            assert(reaches(links, t, h as int));
            if let Hole::Filled(u) = links[h as int] {
                assert forall|i: int|
                    0 <= i < links.len() && #[trigger] reaches(links, *u, i) && !(
                    links[i] is Filled) implies !(acc[i] matches Hole::Empty { lvl: l } && l
                    > lvl) by {
                    assert(reaches(links, t, i));
                }
                lemma_gen_walk_idle(links, rank, acc, lvl, counter, *u);
            }
        },
    }
}

/// Idle generalization. Generalizing a type that reaches no unresolved
/// variable of a level above `lvl` changes no cell and binds no variable.
pub proof fn lemma_generalize_idle(cells: Seq<Hole>, lvl: u32, t: Ty)
    requires
        well_formed(cells),
        ty_in(t, cells.len()),
        levels_within(cells, t, lvl),
    ensures
        generalize_spec(cells, lvl, t).0 == cells,
        generalize_spec(cells, lvl, t).1.num_vars == 0,
{
    lemma_gen_walk_idle(cells, witness(cells), cells, lvl, 0, t);
}

/// What the walk of generalization leaves: cells that differ from `acc` only
/// in unresolved variables that became bound ones, no unresolved variable of
/// a level above `lvl` among those that `t` reaches, and a type that reaches
/// only what `t` reaches.
proof fn lemma_gen_walk_leaves(
    links: Seq<Hole>,
    rank: Seq<nat>,
    acc: Seq<Hole>,
    lvl: u32,
    counter: nat,
    t: Ty,
)
    requires
        ranked(links, rank),
        abstracted(links, acc),
        ty_in(t, links.len()),
    ensures
        abstracted(links, gen_walk(links, acc, lvl, counter, t).0),
        abstracted(acc, gen_walk(links, acc, lvl, counter, t).0),
        ty_in(gen_walk(links, acc, lvl, counter, t).2, links.len()),
        forall|i: int|
            0 <= i < links.len() && #[trigger] reaches(links, t, i) && !(links[i] is Filled) ==> !(
            gen_walk(links, acc, lvl, counter, t).0[i] matches Hole::Empty { lvl: l } && l > lvl),
        forall|i: int|
            0 <= i < links.len() && #[trigger] reaches(
                links,
                gen_walk(links, acc, lvl, counter, t).2,
                i,
            ) ==> reaches(links, t, i),
    decreases height(rank, t), t,
{
    let out = gen_walk(links, acc, lvl, counter, t);
    match t {
        Ty::TCon(_) => {},
        Ty::TFun(a, b) => {
            lemma_gen_walk_leaves(links, rank, acc, lvl, counter, *a);
            let left = gen_walk(links, acc, lvl, counter, *a);
            lemma_gen_walk_leaves(links, rank, left.0, lvl, left.1, *b);
            let right = gen_walk(links, left.0, lvl, left.1, *b);
            lemma_gen_walk_pair(links, acc, left, right, out, lvl, t, *a, *b);
        },
        Ty::TApp(_, f, x) => {
            lemma_gen_walk_leaves(links, rank, acc, lvl, counter, *f);
            let left = gen_walk(links, acc, lvl, counter, *f);
            lemma_gen_walk_leaves(links, rank, left.0, lvl, left.1, *x);
            let right = gen_walk(links, left.0, lvl, left.1, *x);
            lemma_gen_walk_pair(links, acc, left, right, out, lvl, t, *f, *x);
        },
        Ty::TUVar(h) => {
            if let Hole::Filled(u) = links[h as int] {
                lemma_gen_walk_leaves(links, rank, acc, lvl, counter, *u);
                assert forall|i: int|
                    0 <= i < links.len() && #[trigger] reaches(links, t, i) && !(
                    links[i] is Filled) implies !(out.0[i] matches Hole::Empty { lvl: l } && l
                    > lvl) by {
                    assert(reaches(links, *u, i));
                }
            } else {
                assert forall|i: int|
                    0 <= i < links.len() && #[trigger] reaches(links, t, i) && !(
                    links[i] is Filled) implies !(out.0[i] matches Hole::Empty { lvl: l } && l
                    > lvl) by {
                    assert(i == h);
                }
            }
        },
    }
}

/// The step of `lemma_gen_walk_leaves` for a type of two parts, walked one
/// after the other.
proof fn lemma_gen_walk_pair(
    links: Seq<Hole>,
    acc: Seq<Hole>,
    left: (Seq<Hole>, nat, Ty),
    right: (Seq<Hole>, nat, Ty),
    out: (Seq<Hole>, nat, Ty),
    lvl: u32,
    t: Ty,
    a: Ty,
    b: Ty,
)
    requires
        well_formed(links),
        ty_in(t, links.len()),
        ty_in(a, links.len()),
        ty_in(b, links.len()),
        forall|i: int| reaches(links, t, i) == (reaches(links, a, i) || reaches(links, b, i)),
        out.0 == right.0,
        ty_in(out.2, links.len()),
        forall|i: int|
            reaches(links, out.2, i) == (reaches(links, left.2, i) || reaches(links, right.2, i)),
        abstracted(links, left.0),
        abstracted(acc, left.0),
        abstracted(links, right.0),
        abstracted(left.0, right.0),
        forall|i: int|
            0 <= i < links.len() && #[trigger] reaches(links, a, i) && !(links[i] is Filled) ==> !(
            left.0[i] matches Hole::Empty { lvl: l } && l > lvl),
        forall|i: int|
            0 <= i < links.len() && #[trigger] reaches(links, b, i) && !(links[i] is Filled) ==> !(
            right.0[i] matches Hole::Empty { lvl: l } && l > lvl),
        forall|i: int|
            0 <= i < links.len() && #[trigger] reaches(links, left.2, i) ==> reaches(links, a, i),
        forall|i: int|
            0 <= i < links.len() && #[trigger] reaches(links, right.2, i) ==> reaches(links, b, i),
    ensures
        abstracted(acc, out.0),
        forall|i: int|
            0 <= i < links.len() && #[trigger] reaches(links, t, i) && !(links[i] is Filled) ==> !(
            out.0[i] matches Hole::Empty { lvl: l } && l > lvl),
        forall|i: int|
            0 <= i < links.len() && #[trigger] reaches(links, out.2, i) ==> reaches(links, t, i),
{
    assert forall|i: int|
        0 <= i < links.len() && #[trigger] reaches(links, t, i) && !(links[i] is Filled) implies !(
    out.0[i] matches Hole::Empty { lvl: l } && l > lvl) by {
        if reaches(links, b, i) {
        } else {
            assert(reaches(links, a, i));
            assert(right.0[i] == left.0[i] || (left.0[i] is Empty && right.0[i] is Generalized));
        }
    }
    assert forall|i: int| 0 <= i < acc.len() implies #[trigger] out.0[i] == acc[i] || (acc[i] is Empty
        && out.0[i] is Generalized) by {
        assert(right.0[i] == left.0[i] || (left.0[i] is Empty && right.0[i] is Generalized));
        assert(left.0[i] == acc[i] || (acc[i] is Empty && left.0[i] is Generalized));
    }
    assert forall|i: int|
        0 <= i < links.len() && #[trigger] reaches(links, out.2, i) implies reaches(links, t, i) by {
        if reaches(links, left.2, i) {
            assert(reaches(links, a, i));
        } else {
            assert(reaches(links, right.2, i));
            assert(reaches(links, b, i));
        }
    }
}

/// Idempotent generalization. Once a type is generalized at a level,
/// generalizing it or the scheme's type again at that level changes no cell
/// and binds no variable.
pub proof fn lemma_generalize_idempotent(cells: Seq<Hole>, lvl: u32, t: Ty)
    requires
        well_formed(cells),
        ty_in(t, cells.len()),
    ensures
        ({
            let first = generalize_spec(cells, lvl, t);
            &&& generalize_spec(first.0, lvl, t).0 == first.0
            &&& generalize_spec(first.0, lvl, t).1.num_vars == 0
            &&& generalize_spec(first.0, lvl, *first.1.ty).0 == first.0
            &&& generalize_spec(first.0, lvl, *first.1.ty).1.num_vars == 0
        }),
{
    let rank = witness(cells);
    let first = generalize_spec(cells, lvl, t);
    lemma_gen_walk_leaves(cells, rank, cells, lvl, 0, t);
    lemma_same_links_ranked(cells, first.0, rank);
    assert forall|i: int| 0 <= i < first.0.len() && #[trigger] reaches(first.0, t, i) implies (
    first.0[i] matches Hole::Empty { lvl: l } ==> l <= lvl) by {
        lemma_same_links_reaches(cells, first.0, t, i);
    }
    assert forall|i: int|
        0 <= i < first.0.len() && #[trigger] reaches(first.0, *first.1.ty, i) implies (
    first.0[i] matches Hole::Empty { lvl: l } ==> l <= lvl) by {
        lemma_same_links_reaches(cells, first.0, *first.1.ty, i);
        assert(reaches(cells, t, i));
    }
    lemma_generalize_idle(first.0, lvl, t);
    lemma_generalize_idle(first.0, lvl, *first.1.ty);
}

/// The variable of handle `h` occurs in `t` itself.
pub open spec fn occurs(t: Ty, h: usize) -> bool
    decreases t,
{
    match t {
        Ty::TCon(_) => false,
        Ty::TFun(a, b) => occurs(*a, h) || occurs(*b, h),
        Ty::TApp(_, f, x) => occurs(*f, h) || occurs(*x, h),
        Ty::TUVar(v) => v == h,
    }
}

/// Every variable of `t` is an unresolved one of a level above `lvl`.
pub open spec fn all_above(cells: Seq<Hole>, t: Ty, lvl: u32) -> bool {
    forall|h: usize| #[trigger]
        occurs(t, h) ==> h < cells.len() && (cells[h as int] matches Hole::Empty { lvl: l } && l
            > lvl)
}

/// `t` with every variable `h` replaced by the variable `f(h)`.
pub open spec fn renamed(t: Ty, f: spec_fn(usize) -> usize) -> Ty
    decreases t,
{
    match t {
        Ty::TCon(id) => Ty::TCon(id),
        Ty::TFun(a, b) => Ty::TFun(Box::new(renamed(*a, f)), Box::new(renamed(*b, f))),
        Ty::TApp(k, g, x) => Ty::TApp(k, Box::new(renamed(*g, f)), Box::new(renamed(*x, f))),
        Ty::TUVar(h) => Ty::TUVar(f(h)),
    }
}

/// The index that cell `h` holds as the bound variable of a scheme, and 0
/// where it holds none.
pub open spec fn index_of(cells: Seq<Hole>, h: usize) -> usize {
    match cells[h as int] {
        Hole::Generalized(k) => k,
        _ => 0,
    }
}

/// The renaming that an instance of a scheme makes when the new cells begin
/// at `base`: the bound variable of index `k` becomes the variable `base + k`.
pub open spec fn instance_renaming(cells: Seq<Hole>, base: nat) -> spec_fn(usize) -> usize {
    |h: usize| (base + index_of(cells, h)) as usize
}

/// Cell `i` was unresolved in `links` and is in `acc` the bound variable of
/// index `k`.
pub open spec fn holds_index(links: Seq<Hole>, acc: Seq<Hole>, i: int, k: nat) -> bool {
    0 <= i < links.len() && links[i] is Empty && acc[i] == Hole::Generalized(k as usize)
}

/// A cell that holds the index `k`, where there is one.
pub open spec fn holder(links: Seq<Hole>, acc: Seq<Hole>, k: nat) -> int {
    choose|i: int| holds_index(links, acc, i, k)
}

/// The bound variables that came of unresolved ones carry the indices below
/// `counter`: each of them one of these, no two of them the same, and none of
/// these left out.
pub open spec fn numbered(links: Seq<Hole>, acc: Seq<Hole>, counter: nat) -> bool {
    &&& forall|i: int, j: int|
        0 <= i < links.len() && 0 <= j < links.len() && links[i] is Empty && links[j] is Empty ==> (
        match (#[trigger] acc[i], #[trigger] acc[j]) {
            (Hole::Generalized(k), Hole::Generalized(m)) => k < counter && (k == m ==> i == j),
            _ => true,
        })
    &&& forall|k: nat| k < counter ==> holds_index(links, acc, #[trigger] holder(links, acc, k), k)
}

/// The walk of generalization keeps the bound variables numbered.
proof fn lemma_gen_walk_numbered(
    links: Seq<Hole>,
    rank: Seq<nat>,
    acc: Seq<Hole>,
    lvl: u32,
    counter: nat,
    t: Ty,
)
    requires
        ranked(links, rank),
        abstracted(links, acc),
        ty_in(t, links.len()),
        numbered(links, acc, counter),
        gen_walk(links, acc, lvl, counter, t).1 <= usize::MAX,
    ensures
        counter <= gen_walk(links, acc, lvl, counter, t).1,
        abstracted(links, gen_walk(links, acc, lvl, counter, t).0),
        abstracted(acc, gen_walk(links, acc, lvl, counter, t).0),
        numbered(
            links,
            gen_walk(links, acc, lvl, counter, t).0,
            gen_walk(links, acc, lvl, counter, t).1,
        ),
    decreases height(rank, t), t,
{
    let out = gen_walk(links, acc, lvl, counter, t);
    match t {
        Ty::TCon(_) => {},
        Ty::TFun(a, b) => {
            let left = gen_walk(links, acc, lvl, counter, *a);
            lemma_gen_walk_grows(links, left.0, lvl, left.1, *b);
            lemma_gen_walk_numbered(links, rank, acc, lvl, counter, *a);
            lemma_gen_walk_numbered(links, rank, left.0, lvl, left.1, *b);
            lemma_abstracted_twice(acc, left.0, out.0);
        },
        Ty::TApp(_, f, x) => {
            let left = gen_walk(links, acc, lvl, counter, *f);
            lemma_gen_walk_grows(links, left.0, lvl, left.1, *x);
            lemma_gen_walk_numbered(links, rank, acc, lvl, counter, *f);
            lemma_gen_walk_numbered(links, rank, left.0, lvl, left.1, *x);
            lemma_abstracted_twice(acc, left.0, out.0);
        },
        Ty::TUVar(h) => {
            match links[h as int] {
                Hole::Filled(u) => {
                    lemma_gen_walk_numbered(links, rank, acc, lvl, counter, *u);
                },
                _ => {
                    if let Hole::Empty { lvl: l } = acc[h as int] {
                        if l > lvl {
                            assert forall|i: int, j: int|
                                0 <= i < links.len() && 0 <= j < links.len() && links[i] is Empty
                                    && links[j] is Empty implies (match (
                                #[trigger] out.0[i],
                                #[trigger] out.0[j],
                            ) {
                                (Hole::Generalized(k), Hole::Generalized(m)) => k < out.1 && (k
                                    == m ==> i == j),
                                _ => true,
                            }) by {
                                let before = (acc[i], acc[j]);
                            }
                            assert forall|k: nat| k < out.1 implies holds_index(
                                links,
                                out.0,
                                #[trigger] holder(links, out.0, k),
                                k,
                            ) by {
                                if k < counter {
                                    let was = holder(links, acc, k);
                                    assert(holds_index(links, out.0, was, k));
                                } else {
                                    assert(holds_index(links, out.0, h as int, k));
                                }
                            }
                        }
                    }
                },
            }
        },
    }
}

/// Two walks of generalization, one after the other, change the cells as
/// one does.
proof fn lemma_abstracted_twice(first: Seq<Hole>, second: Seq<Hole>, third: Seq<Hole>)
    requires
        abstracted(first, second),
        abstracted(second, third),
    ensures
        abstracted(first, third),
{
    assert forall|i: int| 0 <= i < first.len() implies #[trigger] third[i] == first[i] || (
    first[i] is Empty && third[i] is Generalized) by {
        assert(third[i] == second[i] || (second[i] is Empty && third[i] is Generalized));
        assert(second[i] == first[i] || (first[i] is Empty && second[i] is Generalized));
    }
}

/// Numbering. Generalization gives the variables that it binds the indices
/// from 0 up to the scheme's number of variables: each of them one of these,
/// no two of them the same, and none of these left out.
pub proof fn lemma_generalize_numbers(cells: Seq<Hole>, lvl: u32, t: Ty)
    requires
        well_formed(cells),
        ty_in(t, cells.len()),
        cells.len() <= usize::MAX,
    ensures
        abstracted(cells, generalize_spec(cells, lvl, t).0),
        numbered(
            cells,
            generalize_spec(cells, lvl, t).0,
            generalize_spec(cells, lvl, t).1.num_vars as nat,
        ),
{
    lemma_generalize_count(cells, lvl, t);
    assert(numbered(cells, cells, 0));
    lemma_gen_walk_numbered(cells, witness(cells), cells, lvl, 0, t);
}

/// The walk of generalization over a type whose variables are all
/// unresolved and above the level leaves the type as it is and binds each of
/// its variables.
proof fn lemma_gen_walk_fresh(links: Seq<Hole>, acc: Seq<Hole>, lvl: u32, counter: nat, t: Ty)
    requires
        well_formed(links),
        abstracted(links, acc),
        ty_in(t, links.len()),
        all_above(links, t, lvl),
    ensures
        gen_walk(links, acc, lvl, counter, t).2 == t,
        abstracted(links, gen_walk(links, acc, lvl, counter, t).0),
        abstracted(acc, gen_walk(links, acc, lvl, counter, t).0),
        forall|h: usize| #[trigger]
            occurs(t, h) ==> gen_walk(links, acc, lvl, counter, t).0[h as int] is Generalized,
    decreases t, 1int,
{
    match t {
        Ty::TCon(_) => {},
        Ty::TFun(a, b) => {
            lemma_gen_walk_fresh_pair(links, acc, lvl, counter, t, *a, *b);
        },
        Ty::TApp(_, f, x) => {
            lemma_gen_walk_fresh_pair(links, acc, lvl, counter, t, *f, *x);
        },
        Ty::TUVar(h) => {
            assert(occurs(t, h));
        },
    }
}

/// The step of `lemma_gen_walk_fresh` for a type of two parts.
proof fn lemma_gen_walk_fresh_pair(
    links: Seq<Hole>,
    acc: Seq<Hole>,
    lvl: u32,
    counter: nat,
    t: Ty,
    a: Ty,
    b: Ty,
)
    requires
        well_formed(links),
        abstracted(links, acc),
        ty_in(a, links.len()),
        ty_in(b, links.len()),
        (t matches Ty::TFun(x, y) && *x == a && *y == b) || (t matches Ty::TApp(_, x, y) && *x == a
            && *y == b),
        all_above(links, t, lvl),
    ensures
        ({
            let left = gen_walk(links, acc, lvl, counter, a);
            let right = gen_walk(links, left.0, lvl, left.1, b);
            &&& left.2 == a
            &&& right.2 == b
            &&& abstracted(links, right.0)
            &&& abstracted(acc, right.0)
            &&& forall|h: usize| #[trigger] occurs(t, h) ==> right.0[h as int] is Generalized
        }),
    decreases t, 0int,
{
    let left = gen_walk(links, acc, lvl, counter, a);
    let right = gen_walk(links, left.0, lvl, left.1, b);
    assert(all_above(links, a, lvl)) by {
        assert forall|h: usize| #[trigger] occurs(a, h) implies h < links.len() && (
        links[h as int] matches Hole::Empty { lvl: l } && l > lvl) by {
            assert(occurs(t, h));
        }
    }
    assert(all_above(links, b, lvl)) by {
        assert forall|h: usize| #[trigger] occurs(b, h) implies h < links.len() && (
        links[h as int] matches Hole::Empty { lvl: l } && l > lvl) by {
            assert(occurs(t, h));
        }
    }
    lemma_gen_walk_fresh(links, acc, lvl, counter, a);
    lemma_gen_walk_fresh(links, left.0, lvl, left.1, b);
    lemma_abstracted_twice(acc, left.0, right.0);
    assert forall|h: usize| #[trigger] occurs(t, h) implies right.0[h as int] is Generalized by {
        assert(occurs(a, h) || occurs(b, h));
        assert(h < links.len());
        if occurs(a, h) {
            assert(left.0[h as int] is Generalized);
            assert(right.0[h as int] == left.0[h as int] || (left.0[h as int] is Empty
                && right.0[h as int] is Generalized));
        } else {
            assert(occurs(b, h));
        }
    }
}

/// The counter of the walk never goes down.
proof fn lemma_gen_walk_grows(links: Seq<Hole>, acc: Seq<Hole>, lvl: u32, counter: nat, t: Ty)
    requires
        well_formed(links),
        ty_in(t, links.len()),
    ensures
        counter <= gen_walk(links, acc, lvl, counter, t).1,
{
    lemma_gen_walk_grows_by(links, witness(links), acc, lvl, counter, t);
}

proof fn lemma_gen_walk_grows_by(
    links: Seq<Hole>,
    rank: Seq<nat>,
    acc: Seq<Hole>,
    lvl: u32,
    counter: nat,
    t: Ty,
)
    requires
        ranked(links, rank),
        ty_in(t, links.len()),
    ensures
        counter <= gen_walk(links, acc, lvl, counter, t).1,
    decreases height(rank, t), t,
{
    match t {
        Ty::TCon(_) => {},
        Ty::TFun(a, b) => {
            lemma_gen_walk_grows_by(links, rank, acc, lvl, counter, *a);
            let left = gen_walk(links, acc, lvl, counter, *a);
            lemma_gen_walk_grows_by(links, rank, left.0, lvl, left.1, *b);
        },
        Ty::TApp(_, f, x) => {
            lemma_gen_walk_grows_by(links, rank, acc, lvl, counter, *f);
            let left = gen_walk(links, acc, lvl, counter, *f);
            lemma_gen_walk_grows_by(links, rank, left.0, lvl, left.1, *x);
        },
        Ty::TUVar(h) => {
            if let Hole::Filled(u) = links[h as int] {
                lemma_gen_walk_grows_by(links, rank, acc, lvl, counter, *u);
            }
        },
    }
}

/// An instance of a type whose variables are all bound ones of the scheme
/// is that type renamed.
proof fn lemma_inst_renames(cells: Seq<Hole>, base: nat, num_vars: nat, t: Ty)
    requires
        forall|h: usize| #[trigger]
            occurs(t, h) ==> (cells[h as int] matches Hole::Generalized(k) && k < num_vars),
    ensures
        inst(cells, base, num_vars, t) == renamed(t, instance_renaming(cells, base)),
    decreases t,
{
    match t {
        Ty::TCon(_) => {},
        Ty::TFun(a, b) => {
            assert forall|h: usize| #[trigger] occurs(*a, h) implies (
            cells[h as int] matches Hole::Generalized(k) && k < num_vars) by {
                assert(occurs(t, h));
            }
            assert forall|h: usize| #[trigger] occurs(*b, h) implies (
            cells[h as int] matches Hole::Generalized(k) && k < num_vars) by {
                assert(occurs(t, h));
            }
            lemma_inst_renames(cells, base, num_vars, *a);
            lemma_inst_renames(cells, base, num_vars, *b);
        },
        Ty::TApp(_, f, x) => {
            assert forall|h: usize| #[trigger] occurs(*f, h) implies (
            cells[h as int] matches Hole::Generalized(k) && k < num_vars) by {
                assert(occurs(t, h));
            }
            assert forall|h: usize| #[trigger] occurs(*x, h) implies (
            cells[h as int] matches Hole::Generalized(k) && k < num_vars) by {
                assert(occurs(t, h));
            }
            lemma_inst_renames(cells, base, num_vars, *f);
            lemma_inst_renames(cells, base, num_vars, *x);
        },
        Ty::TUVar(h) => {
            assert(occurs(t, h));
        },
    }
}

/// Round trip. A type whose variables are all unresolved and of a level
/// above `lvl` is its own scheme's type when it is generalized at `lvl`, and
/// an instance of that scheme at any level `at` is the type with its
/// variables renamed: each to a new unresolved variable of level `at`, and two
/// different ones to two different ones.
pub proof fn lemma_round_trip(cells: Seq<Hole>, lvl: u32, at: u32, t: Ty)
    requires
        well_formed(cells),
        ty_in(t, cells.len()),
        all_above(cells, t, lvl),
        cells.len() + generalize_spec(cells, lvl, t).1.num_vars <= usize::MAX,
    ensures
        ({
            let closed = generalize_spec(cells, lvl, t);
            let made = instantiate_spec(closed.0, at, closed.1);
            let f = instance_renaming(closed.0, cells.len());
            &&& *closed.1.ty == t
            &&& made.1 == renamed(t, f)
            &&& forall|h: usize| #[trigger]
                occurs(t, h) ==> cells.len() <= f(h) < made.0.len() && made.0[f(h) as int]
                    == (Hole::Empty { lvl: at })
            &&& forall|h: usize, g: usize|
                #![trigger occurs(t, h), occurs(t, g)]
                occurs(t, h) && occurs(t, g) && f(h) == f(g) ==> h == g
        }),
{
    let closed = generalize_spec(cells, lvl, t);
    let made = instantiate_spec(closed.0, at, closed.1);
    let f = instance_renaming(closed.0, cells.len());
    let walk = gen_walk(cells, cells, lvl, 0, t);
    lemma_generalize_count(cells, lvl, t);
    lemma_generalize_numbers(cells, lvl, t);
    lemma_gen_walk_fresh(cells, cells, lvl, 0, t);
    let n = closed.1.num_vars as nat;
    assert forall|h: usize| #[trigger] occurs(t, h) implies (
    closed.0[h as int] matches Hole::Generalized(k) && k < n) by {
        let pair = (closed.0[h as int], closed.0[h as int]);
    }
    lemma_inst_renames(closed.0, cells.len(), n, t);
    assert forall|h: usize, g: usize|
        #![trigger occurs(t, h), occurs(t, g)]
        occurs(t, h) && occurs(t, g) && f(h) == f(g) implies h == g by {
        let pair = (closed.0[h as int], closed.0[g as int]);
    }
    assert forall|h: usize| #[trigger] occurs(t, h) implies cells.len() <= f(h) < made.0.len()
        && made.0[f(h) as int] == (Hole::Empty { lvl: at }) by {
        let k = index_of(closed.0, h);
        assert(k < n);
        assert(fresh_cells(n, at)[k as int] == Hole::Empty { lvl: at });
    }
}

} // verus!
