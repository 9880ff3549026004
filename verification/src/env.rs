//! Finite maps from names to values, and values that can be copied.
use vstd::prelude::*;

verus! {

/// Values that can be copied, with the copy equal to what was copied.
pub trait Duplicate: Sized {
    fn duplicate(&self) -> (res: Self)
        ensures
            res == *self,
    ;
}

/// The map that a list of bindings stands for: a later binding of a name
/// hides an earlier one.
pub open spec fn bindings<V>(entries: Seq<(String, V)>) -> Map<Seq<char>, V>
    decreases entries.len(),
{
    if entries.len() == 0 {
        Map::empty()
    } else {
        bindings(entries.drop_last()).insert(entries.last().0@, entries.last().1)
    }
}

/// `name` is bound in `entries` to what the entry at `i`, the last one of
/// that name, holds.
proof fn lemma_bindings_last<V>(entries: Seq<(String, V)>, i: int, name: Seq<char>)
    requires
        0 <= i < entries.len(),
        entries[i].0@ == name,
        forall|j: int| i < j < entries.len() ==> entries[j].0@ != name,
    ensures
        bindings(entries).contains_key(name),
        bindings(entries)[name] == entries[i].1,
    decreases entries.len(),
{
    if i < entries.len() - 1 {
        lemma_bindings_last(entries.drop_last(), i, name);
    }
}

proof fn lemma_bindings_none<V>(entries: Seq<(String, V)>, name: Seq<char>)
    requires
        forall|j: int| 0 <= j < entries.len() ==> entries[j].0@ != name,
    ensures
        !bindings(entries).contains_key(name),
    decreases entries.len(),
{
    if entries.len() > 0 {
        lemma_bindings_none(entries.drop_last(), name);
    }
}

/// A finite map from names to values.
#[derive(Debug)]
pub struct Env<V> {
    entries: Vec<(String, V)>,
}

impl<V> View for Env<V> {
    type V = Map<Seq<char>, V>;

    closed spec fn view(&self) -> Map<Seq<char>, V> {
        bindings(self.entries@)
    }
}

impl<V> Env<V> {
    /// The map that binds no name.
    pub fn new() -> (env: Self)
        ensures
            env@ == Map::<Seq<char>, V>::empty(),
    {
        Env { entries: Vec::new() }
    }

    /// Binds `name` to `value`, in place of what it was bound to.
    pub fn insert(&mut self, name: String, value: V)
        ensures
            final(self)@ == old(self)@.insert(name@, value),
    {
        proof {
            assert(old(self).entries@.push((name, value)).drop_last() =~= old(self).entries@);
        }
        self.entries.push((name, value));
    }

    /// What `name` is bound to.
    pub fn get(&self, name: &String) -> (found: Option<&V>)
        ensures
            found == if self@.contains_key(name@) {
                Some(&self@[name@])
            } else {
                None
            },
    {
        let mut i: usize = self.entries.len();
        while i > 0
            invariant
                i <= self.entries.len(),
                forall|j: int| i <= j < self.entries.len() ==> self.entries[j].0@ != name@,
            decreases i,
        {
            i = i - 1;
            if self.entries[i].0 == *name {
                proof {
                    lemma_bindings_last(self.entries@, i as int, name@);
                }
                return Some(&self.entries[i].1);
            }
        }
        proof {
            lemma_bindings_none(self.entries@, name@);
        }
        None
    }
}

impl<V: Duplicate> Env<V> {
    /// A copy that binds the same names to the same values.
    pub fn duplicate(&self) -> (res: Self)
        ensures
            res@ == self@,
    {
        let mut entries: Vec<(String, V)> = Vec::new();
        let mut i: usize = 0;
        while i < self.entries.len()
            invariant
                i <= self.entries.len(),
                entries@ == self.entries@.take(i as int),
            decreases self.entries.len() - i,
        {
            let name = self.entries[i].0.clone();
            let value = self.entries[i].1.duplicate();
            entries.push((name, value));
            i = i + 1;
            proof {
                assert(entries@ =~= self.entries@.take(i as int));
            }
        }
        proof {
            assert(self.entries@.take(i as int) =~= self.entries@);
        }
        let res = Env { entries };
        proof {
            assert(res.entries@ == self.entries@);
            assert(res@ == self@);
        }
        res
    }
}

} // verus!
