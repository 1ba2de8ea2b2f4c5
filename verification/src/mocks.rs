//! Resolvers for tests: a table, or a function.
use vstd::prelude::*;
use std::collections::HashMap;
use std::hash::Hash;
use std::marker::PhantomData;
use vstd::std_specs::hash::obeys_key_model;
use crate::blocking::BlockingResolver;

verus! {

/// A resolver that answers from what it is given: a table of names and
/// addresses, or a function from names to answers.
pub struct Mock<N, M>(M, PhantomData<N>);

/// The table that a list of names and addresses makes: where a name stands
/// in the list more than once, its last address counts.
pub open spec fn table_of<N, V>(items: Seq<(N, V)>) -> Map<N, V>
    decreases items.len(),
{
    if items.len() == 0 {
        Map::empty()
    } else {
        table_of(items.drop_last()).insert(items.last().0, items.last().1)
    }
}

impl<N, M> Mock<N, M> {
    /// What the resolver answers from.
    pub closed spec fn inner(&self) -> M {
        self.0
    }

    /// The resolver that answers from `x`.
    pub fn new(x: M) -> (r: Mock<N, M>)
        ensures
            r.inner() == x,
    {
        Mock(x, PhantomData)
    }
}

impl<N: Hash + Eq, V: Clone> Mock<N, HashMap<N, V>> {
    /// The resolver that answers from the table that `items` make. What the
    /// table holds is said of key types whose hashing and equality are known
    /// to agree with each other, as those of the integers are.
    pub fn table(items: Vec<(N, V)>) -> (r: Mock<N, HashMap<N, V>>)
        ensures
            obeys_key_model::<N>() ==> r.inner()@ == table_of(items@),
    {
        let ghost all = items@;
        let mut map: HashMap<N, V> = HashMap::new();
        for item in it: items
            invariant
                it.seq() == all,
                obeys_key_model::<N>() ==> map@ == table_of(all.take(it.index() as int)),
        {
            proof {
                assert(all.take(it.index() + 1).drop_last() =~= all.take(it.index() as int));
                assert(all.take(it.index() + 1).last() == item);
            }
            let (name, value) = item;
            map.insert(name, value);
        }
        proof {
            assert(all.take(all.len() as int) =~= all);
        }
        Mock(map, PhantomData)
    }
}

impl<N: Hash + Eq, A: Clone> BlockingResolver for Mock<N, HashMap<N, A>> {
    type Name = N;

    type Address = A;

    type Error = ();

    /// Every name may be asked for.
    open spec fn accepts(&self, name: N) -> bool {
        true
    }

    /// The answer is a clone of the address that the table holds for the
    /// name, and an error where it holds none. This is said of key types
    /// whose hashing and equality are known to agree with each other, as
    /// those of the integers are; of other key types nothing is said.
    open spec fn resolves(&self, name: N, answer: Result<A, ()>) -> bool {
        obeys_key_model::<N>() ==> match answer {
            Ok(a) => self.inner()@.contains_key(name) && cloned(self.inner()@[name], a),
            Err(_) => !self.inner()@.contains_key(name),
        }
    }

    /// Looks the name up. The table stays as it is.
    fn resolve(&mut self, name: N) -> (answer: Result<A, ()>)
        ensures
            *final(self) == *old(self),
    {
        broadcast use vstd::std_specs::hash::group_hash_axioms;

        match self.0.get(&name) {
            Some(a) => Ok(a.clone()),
            None => Err(()),
        }
    }
}

impl<N, A, E, F: Fn(N) -> Result<A, E>> BlockingResolver for Mock<N, F> {
    type Name = N;

    type Address = A;

    type Error = E;

    /// The names that the function may be called with.
    open spec fn accepts(&self, name: N) -> bool {
        self.inner().requires((name,))
    }

    /// The answer is what the function returns.
    open spec fn resolves(&self, name: N, answer: Result<A, E>) -> bool {
        self.inner().ensures((name,), answer)
    }

    /// Calls the function. The resolver stays as it is.
    fn resolve(&mut self, name: N) -> (answer: Result<A, E>)
        ensures
            *final(self) == *old(self),
    {
        (self.0)(name)
    }
}

} // verus!
