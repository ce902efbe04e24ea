//! The symbol tables of the code generator.

use vstd::prelude::*;
use crate::backend::value::{AnyValue, Function};

verus! {

/// What `key` is bound to by a list of bindings, of which a later one
/// replaces an earlier one of the same name.
pub open spec fn find<V>(entries: Seq<(String, V)>, key: Seq<char>) -> Option<V>
    decreases entries.len(),
{
    if entries.len() == 0 {
        None
    } else if entries.last().0@ == key {
        Some(entries.last().1)
    } else {
        find(entries.drop_last(), key)
    }
}

/// The finite map that a list of bindings stands for.
pub open spec fn bindings<V>(entries: Seq<(String, V)>) -> Map<Seq<char>, V> {
    Map::new(|k: Seq<char>| find(entries, k) is Some, |k: Seq<char>| find(entries, k)->0)
}

/// To add a binding at the end is to insert it into the map.
pub proof fn lemma_bindings_push<V>(entries: Seq<(String, V)>, entry: (String, V))
    ensures
        bindings(entries.push(entry)) == bindings(entries).insert(entry.0@, entry.1),
{
    let after = entries.push(entry);
    assert(after.last() == entry);
    assert(after.drop_last() =~= entries);
    assert forall|k: Seq<char>| #[trigger] find(after, k) == (if k == entry.0@ {
        Some(entry.1)
    } else {
        find(entries, k)
    }) by {}
    assert(bindings(after) =~= bindings(entries).insert(entry.0@, entry.1));
}

/// No binding at all is the empty map.
pub proof fn lemma_bindings_empty<V>()
    ensures
        bindings(Seq::<(String, V)>::empty()) == Map::<Seq<char>, V>::empty(),
{
    assert(bindings(Seq::<(String, V)>::empty()) =~= Map::<Seq<char>, V>::empty());
}

/// The value that the latest binding of `key` gives it.
pub fn lookup<V: Copy>(entries: &Vec<(String, V)>, key: &String) -> (found: Option<V>)
    ensures
        found == find(entries@, key@),
        found is Some <==> bindings(entries@).dom().contains(key@),
        found is Some ==> found->0 == bindings(entries@)[key@],
{
    let mut i: usize = entries.len();
    assert(entries@.take(i as int) =~= entries@);
    while i > 0
        invariant
            i <= entries.len(),
            find(entries@, key@) == find(entries@.take(i as int), key@),
        decreases i,
    {
        let ghost prefix = entries@.take(i as int);
        i = i - 1;
        assert(prefix.last() == entries@[i as int]);
        assert(prefix.drop_last() =~= entries@.take(i as int));
        if entries[i].0 == *key {
            return Some(entries[i].1);
        }
    }
    assert(entries@.take(0) =~= Seq::<(String, V)>::empty());
    None
}

/// The two symbol tables: the variables of the function being generated,
/// and the functions defined so far.
#[derive(Debug, PartialEq, Eq)]
pub struct Environment {
    pub vars: Vec<(String, AnyValue)>,
    pub defs: Vec<(String, Function)>,
}

impl Environment {
    /// An environment that binds nothing.
    pub fn new() -> (env: Environment)
        ensures
            env.spec_vars() == Map::<Seq<char>, AnyValue>::empty(),
            env.spec_defs() == Map::<Seq<char>, Function>::empty(),
    {
        proof {
            lemma_bindings_empty::<AnyValue>();
            lemma_bindings_empty::<Function>();
        }
        Environment { vars: Vec::new(), defs: Vec::new() }
    }

    /// The variables in scope.
    pub open spec fn spec_vars(&self) -> Map<Seq<char>, AnyValue> {
        bindings(self.vars@)
    }

    /// The functions defined so far.
    pub open spec fn spec_defs(&self) -> Map<Seq<char>, Function> {
        bindings(self.defs@)
    }

    /// The value of the variable `name`.
    pub fn var(&self, name: &String) -> (found: Option<AnyValue>)
        ensures
            found is Some <==> self.spec_vars().dom().contains(name@),
            found is Some ==> found->0 == self.spec_vars()[name@],
    {
        lookup(&self.vars, name)
    }

    /// The function defined as `name`.
    pub fn def(&self, name: &String) -> (found: Option<Function>)
        ensures
            found is Some <==> self.spec_defs().dom().contains(name@),
            found is Some ==> found->0 == self.spec_defs()[name@],
    {
        lookup(&self.defs, name)
    }

    /// Binds the variable `name` to `value`.
    pub fn bind_var(&mut self, name: String, value: AnyValue)
        ensures
            final(self).spec_vars() == old(self).spec_vars().insert(name@, value),
            final(self).spec_defs() == old(self).spec_defs(),
    {
        proof {
            lemma_bindings_push(self.vars@, (name, value));
        }
        self.vars.push((name, value));
    }

    /// Defines the function `name` as `function`.
    pub fn define(&mut self, name: String, function: Function)
        ensures
            final(self).spec_defs() == old(self).spec_defs().insert(name@, function),
            final(self).spec_vars() == old(self).spec_vars(),
    {
        proof {
            lemma_bindings_push(self.defs@, (name, function));
        }
        self.defs.push((name, function));
    }

    /// Forgets every variable.
    pub fn clear_vars(&mut self)
        ensures
            final(self).spec_vars() == Map::<Seq<char>, AnyValue>::empty(),
            final(self).spec_defs() == old(self).spec_defs(),
    {
        proof {
            lemma_bindings_empty::<AnyValue>();
        }
        self.vars = Vec::new();
    }
}

} // verus!
