//! The arena of unification variables, and what it means for its cells to
//! be well-formed.
use vstd::prelude::*;
use crate::check::{Hole, Ty};

verus! {

/// Every variable of `t` is the handle of one of the first `n` cells.
pub open spec fn ty_in(t: Ty, n: nat) -> bool
    decreases t,
{
    match t {
        Ty::TCon(_) => true,
        Ty::TFun(a, b) => ty_in(*a, n) && ty_in(*b, n),
        Ty::TApp(_, f, x) => ty_in(*f, n) && ty_in(*x, n),
        Ty::TUVar(h) => h < n,
    }
}

/// One more than the largest rank of a variable of `t`; 0 where `t` has none.
pub open spec fn height(rank: Seq<nat>, t: Ty) -> nat
    decreases t,
{
    match t {
        Ty::TCon(_) => 0,
        Ty::TFun(a, b) => if height(rank, *a) >= height(rank, *b) {
            height(rank, *a)
        } else {
            height(rank, *b)
        },
        Ty::TApp(_, f, x) => if height(rank, *f) >= height(rank, *x) {
            height(rank, *f)
        } else {
            height(rank, *x)
        },
        Ty::TUVar(h) => if h < rank.len() {
            rank[h as int] + 1
        } else {
            0
        },
    }
}

/// What `hole` holds names only the first `n` cells.
pub open spec fn hole_in(hole: Hole, n: nat) -> bool {
    hole matches Hole::Filled(t) ==> ty_in(*t, n)
}

/// `rank` orders the cells so that a filled cell stands strictly above every
/// variable of its content, and that content names only cells that exist.
pub open spec fn ranked(cells: Seq<Hole>, rank: Seq<nat>) -> bool {
    &&& rank.len() == cells.len()
    &&& forall|i: int|
        0 <= i < cells.len() ==> (#[trigger] cells[i] matches Hole::Filled(t) ==> ty_in(
            *t,
            cells.len(),
        ) && height(rank, *t) <= rank[i])
}

/// The cells hold no dangling handle and no cycle through filled cells.
pub open spec fn well_formed(cells: Seq<Hole>) -> bool {
    exists|rank: Seq<nat>| ranked(cells, rank)
}

/// Some ranking of well-formed cells.
pub open spec fn witness(cells: Seq<Hole>) -> Seq<nat> {
    choose|rank: Seq<nat>| ranked(cells, rank)
}

/// Cell `c` is a variable of `t`, or of the content of a filled cell that is
/// reached from `t`.
pub open spec fn reaches(cells: Seq<Hole>, t: Ty, c: int) -> bool
    decreases height(witness(cells), t), t,
    when well_formed(cells) && ty_in(t, cells.len())
{
    match t {
        Ty::TCon(_) => false,
        Ty::TFun(a, b) => reaches(cells, *a, c) || reaches(cells, *b, c),
        Ty::TApp(_, f, x) => reaches(cells, *f, c) || reaches(cells, *x, c),
        Ty::TUVar(h) => h == c || match cells[h as int] {
            Hole::Filled(u) => reaches(cells, *u, c),
            _ => false,
        },
    }
}

/// `t` with every filled variable replaced by its content, and so on in
/// that content.
pub open spec fn resolved(cells: Seq<Hole>, t: Ty) -> Ty
    decreases height(witness(cells), t), t,
    when well_formed(cells) && ty_in(t, cells.len())
{
    match t {
        Ty::TCon(_) => t,
        Ty::TFun(a, b) => Ty::TFun(Box::new(resolved(cells, *a)), Box::new(resolved(cells, *b))),
        Ty::TApp(k, f, x) => Ty::TApp(
            k,
            Box::new(resolved(cells, *f)),
            Box::new(resolved(cells, *x)),
        ),
        Ty::TUVar(h) => match cells[h as int] {
            Hole::Filled(u) => resolved(cells, *u),
            _ => t,
        },
    }
}

/// Replacing cells by `after` changes no filled cell and fills none.
pub open spec fn same_links(before: Seq<Hole>, after: Seq<Hole>) -> bool {
    &&& after.len() == before.len()
    &&& forall|i: int|
        0 <= i < before.len() ==> ((#[trigger] before[i] is Filled || #[trigger] after[i] is Filled)
            ==> after[i] == before[i])
}

pub proof fn lemma_ty_in_grows(t: Ty, n: nat, m: nat)
    requires
        ty_in(t, n),
        n <= m,
    ensures
        ty_in(t, m),
    decreases t,
{
    match t {
        Ty::TCon(_) => {},
        Ty::TFun(a, b) => {
            lemma_ty_in_grows(*a, n, m);
            lemma_ty_in_grows(*b, n, m);
        },
        Ty::TApp(_, f, x) => {
            lemma_ty_in_grows(*f, n, m);
            lemma_ty_in_grows(*x, n, m);
        },
        Ty::TUVar(_) => {},
    }
}

/// The height of a type depends only on the ranks of its own variables.
pub proof fn lemma_height_agrees(r1: Seq<nat>, r2: Seq<nat>, t: Ty, n: nat)
    requires
        ty_in(t, n),
        n <= r1.len(),
        n <= r2.len(),
        forall|i: int| 0 <= i < n ==> r1[i] == r2[i],
    ensures
        height(r1, t) == height(r2, t),
    decreases t,
{
    match t {
        Ty::TCon(_) => {},
        Ty::TFun(a, b) => {
            lemma_height_agrees(r1, r2, *a, n);
            lemma_height_agrees(r1, r2, *b, n);
        },
        Ty::TApp(_, f, x) => {
            lemma_height_agrees(r1, r2, *f, n);
            lemma_height_agrees(r1, r2, *x, n);
        },
        Ty::TUVar(_) => {},
    }
}

/// A new cell at the end keeps the cells well-formed.
pub proof fn lemma_push_well_formed(cells: Seq<Hole>, hole: Hole)
    requires
        well_formed(cells),
        hole matches Hole::Filled(t) ==> ty_in(*t, cells.len()),
    ensures
        well_formed(cells.push(hole)),
{
    let r = witness(cells);
    let top: nat = match hole {
        Hole::Filled(t) => height(r, *t),
        _ => 0,
    };
    let r2 = r.push(top);
    let cells2 = cells.push(hole);
    assert forall|i: int| 0 <= i < cells2.len() implies (#[trigger] cells2[i] matches Hole::Filled(
        t,
    ) ==> ty_in(*t, cells2.len()) && height(r2, *t) <= r2[i]) by {
        if let Hole::Filled(t) = cells2[i] {
            if i < cells.len() {
                assert(cells[i] == cells2[i]);
            }
            lemma_ty_in_grows(*t, cells.len(), cells2.len());
            lemma_height_agrees(r, r2, *t, cells.len());
        }
    }
    assert(ranked(cells2, r2));
}

/// Cells that differ only in what their unfilled cells hold are ranked alike.
pub proof fn lemma_same_links_ranked(before: Seq<Hole>, after: Seq<Hole>, rank: Seq<nat>)
    requires
        ranked(before, rank),
        same_links(before, after),
    ensures
        ranked(after, rank),
{
    assert forall|i: int| 0 <= i < after.len() implies (#[trigger] after[i] matches Hole::Filled(
        t,
    ) ==> ty_in(*t, after.len()) && height(rank, *t) <= rank[i]) by {
        if after[i] is Filled {
            assert(before[i] == after[i]);
        }
    }
}

/// What a type reaches depends only on the filled cells.
pub proof fn lemma_same_links_reaches(before: Seq<Hole>, after: Seq<Hole>, t: Ty, c: int)
    requires
        well_formed(before),
        same_links(before, after),
        ty_in(t, before.len()),
    ensures
        well_formed(after),
        reaches(after, t, c) == reaches(before, t, c),
{
    let rank = witness(before);
    lemma_same_links_ranked(before, after, rank);
    lemma_same_links_reaches_by(before, after, rank, t, c);
}

proof fn lemma_same_links_reaches_by(
    before: Seq<Hole>,
    after: Seq<Hole>,
    rank: Seq<nat>,
    t: Ty,
    c: int,
)
    requires
        ranked(before, rank),
        ranked(after, rank),
        same_links(before, after),
        ty_in(t, before.len()),
    ensures
        reaches(after, t, c) == reaches(before, t, c),
    decreases height(rank, t), t,
{
    match t {
        Ty::TCon(_) => {},
        Ty::TFun(a, b) => {
            lemma_same_links_reaches_by(before, after, rank, *a, c);
            lemma_same_links_reaches_by(before, after, rank, *b, c);
        },
        Ty::TApp(_, f, x) => {
            lemma_same_links_reaches_by(before, after, rank, *f, c);
            lemma_same_links_reaches_by(before, after, rank, *x, c);
        },
        Ty::TUVar(h) => {
            if let Hole::Filled(u) = before[h as int] {
                assert(after[h as int] == before[h as int]);
                lemma_same_links_reaches_by(before, after, rank, *u, c);
            } else {
                assert(!(after[h as int] is Filled));
            }
        },
    }
}

/// Cell `c` is cell `x`, or is reached from what `x` is filled with.
pub open spec fn cell_reaches(cells: Seq<Hole>, x: int, c: int) -> bool {
    x == c || (cells[x] matches Hole::Filled(u) && reaches(cells, *u, c))
}

/// The ranking that lifts by `lift` every cell from which `c` is reached.
spec fn lifted(cells: Seq<Hole>, rank: Seq<nat>, c: int, lift: nat) -> Seq<nat> {
    Seq::new(
        cells.len(),
        |x: int|
            if cell_reaches(cells, x, c) {
                rank[x] + lift
            } else {
                rank[x]
            },
    )
}

proof fn lemma_lifted_height(cells: Seq<Hole>, rank: Seq<nat>, c: int, lift: nat, t: Ty)
    requires
        ranked(cells, rank),
        ty_in(t, cells.len()),
    ensures
        height(lifted(cells, rank, c, lift), t) <= height(rank, t) + lift,
        !reaches(cells, t, c) ==> height(lifted(cells, rank, c, lift), t) == height(rank, t),
    decreases t,
{
    match t {
        Ty::TCon(_) => {},
        Ty::TFun(a, b) => {
            lemma_lifted_height(cells, rank, c, lift, *a);
            lemma_lifted_height(cells, rank, c, lift, *b);
        },
        Ty::TApp(_, f, x) => {
            lemma_lifted_height(cells, rank, c, lift, *f);
            lemma_lifted_height(cells, rank, c, lift, *x);
        },
        Ty::TUVar(h) => {
            assert(reaches(cells, t, c) == cell_reaches(cells, h as int, c));
        },
    }
}

/// Filling an unfilled cell with a type that does not reach it keeps the
/// cells well-formed.
pub proof fn lemma_fill_well_formed(cells: Seq<Hole>, c: int, t: Ty)
    requires
        well_formed(cells),
        0 <= c < cells.len(),
        !(cells[c] is Filled),
        ty_in(t, cells.len()),
        !reaches(cells, t, c),
    ensures
        well_formed(cells.update(c, Hole::Filled(Box::new(t)))),
{
    let rank = witness(cells);
    let lift = height(rank, t);
    let r2 = lifted(cells, rank, c, lift);
    let cells2 = cells.update(c, Hole::Filled(Box::new(t)));
    assert forall|i: int| 0 <= i < cells2.len() implies (#[trigger] cells2[i] matches Hole::Filled(
        u,
    ) ==> ty_in(*u, cells2.len()) && height(r2, *u) <= r2[i]) by {
        if let Hole::Filled(u) = cells2[i] {
            if i == c {
                assert(*u == t);
                lemma_lifted_height(cells, rank, c, lift, t);
            } else {
                assert(cells[i] == cells2[i]);
                lemma_lifted_height(cells, rank, c, lift, *u);
            }
        }
    }
    assert(ranked(cells2, r2));
}

/// Filling cell `c` changes nothing in what a type reaches that does not
/// reach `c`.
pub proof fn lemma_fill_reaches(cells: Seq<Hole>, c: int, content: Ty, t: Ty, i: int)
    requires
        well_formed(cells),
        0 <= c < cells.len(),
        !(cells[c] is Filled),
        ty_in(content, cells.len()),
        !reaches(cells, content, c),
        ty_in(t, cells.len()),
        !reaches(cells, t, c),
    ensures
        reaches(cells.update(c, Hole::Filled(Box::new(content))), t, i) == reaches(cells, t, i),
{
    lemma_fill_well_formed(cells, c, content);
    lemma_fill_reaches_by(cells, witness(cells), c, content, t, i);
}

proof fn lemma_fill_reaches_by(
    cells: Seq<Hole>,
    rank: Seq<nat>,
    c: int,
    content: Ty,
    t: Ty,
    i: int,
)
    requires
        ranked(cells, rank),
        0 <= c < cells.len(),
        well_formed(cells.update(c, Hole::Filled(Box::new(content)))),
        ty_in(t, cells.len()),
        !reaches(cells, t, c),
    ensures
        reaches(cells.update(c, Hole::Filled(Box::new(content))), t, i) == reaches(cells, t, i),
    decreases height(rank, t), t,
{
    let cells2 = cells.update(c, Hole::Filled(Box::new(content)));
    match t {
        Ty::TCon(_) => {},
        Ty::TFun(a, b) => {
            lemma_fill_reaches_by(cells, rank, c, content, *a, i);
            lemma_fill_reaches_by(cells, rank, c, content, *b, i);
        },
        Ty::TApp(_, f, x) => {
            lemma_fill_reaches_by(cells, rank, c, content, *f, i);
            lemma_fill_reaches_by(cells, rank, c, content, *x, i);
        },
        Ty::TUVar(h) => {
            assert(cells2[h as int] == cells[h as int]);
            if let Hole::Filled(u) = cells[h as int] {
                lemma_fill_reaches_by(cells, rank, c, content, *u, i);
            }
        },
    }
}

/// An arena of unification variables. A type names a variable by its handle,
/// the index of its cell, so that every occurrence sees one state.
pub struct Store {
    cells: Vec<Hole>,
}

impl View for Store {
    type V = Seq<Hole>;

    closed spec fn view(&self) -> Seq<Hole> {
        self.cells@
    }
}

impl Store {
    /// No filled cell names a cell that does not exist, and no cell is
    /// reached from its own content.
    pub open spec fn wf(&self) -> bool {
        well_formed(self@)
    }

    /// An arena without cells.
    pub fn new() -> (s: Store)
        ensures
            s@ == Seq::<Hole>::empty(),
            s.wf(),
    {
        let s = Store { cells: Vec::new() };
        proof {
            assert(ranked(s@, Seq::<nat>::empty()));
        }
        s
    }

    /// A handle can number every cell.
    pub proof fn lemma_len_fits(&self)
        ensures
            self@.len() <= usize::MAX,
    {
        assert(self.cells.len() == self.cells@.len());
    }

    /// The number of cells.
    pub fn len(&self) -> (n: usize)
        ensures
            n == self@.len(),
    {
        self.cells.len()
    }

    /// The state of cell `h`.
    pub fn get(&self, h: usize) -> (hole: &Hole)
        requires
            h < self@.len(),
        ensures
            *hole == self@[h as int],
    {
        &self.cells[h]
    }

    /// Adds a cell that holds `hole` and returns its handle.
    pub fn new_cell(&mut self, hole: Hole) -> (h: usize)
        ensures
            h == old(self)@.len(),
            final(self)@ == old(self)@.push(hole),
            old(self).wf() && hole_in(hole, old(self)@.len()) ==> final(self).wf(),
    {
        let h = self.cells.len();
        proof {
            if old(self).wf() && hole_in(hole, old(self)@.len()) {
                lemma_push_well_formed(old(self)@, hole);
            }
        }
        self.cells.push(hole);
        h
    }

    /// Adds an unresolved variable of level `lvl` and returns its handle.
    pub fn fresh(&mut self, lvl: u32) -> (h: usize)
        ensures
            h == old(self)@.len(),
            final(self)@ == old(self)@.push(Hole::Empty { lvl }),
            old(self).wf() ==> final(self).wf(),
    {
        self.new_cell(Hole::Empty { lvl })
    }

    /// Overwrites cell `h`.
    pub(crate) fn set(&mut self, h: usize, hole: Hole)
        requires
            h < old(self)@.len(),
        ensures
            final(self)@ == old(self)@.update(h as int, hole),
    {
        self.cells.set(h, hole);
    }
}

} // verus!
