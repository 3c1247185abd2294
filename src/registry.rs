use vstd::prelude::*;
use crate::value::DynType;
use crate::ast::{literal_values, DynFunction};

verus! {

/// A host-defined function that can be called by name: it takes the
/// argument values in order and returns a value, or `None` when it fails or
/// has nothing to return. What it does is up to the host, which states it
/// in `gives`.
pub trait DynamicFunctionTrait {
    /// Whether this function, called with `args`, may give `r`. An
    /// implementation that states nothing of its results may give anything.
    open spec fn gives(&self, args: Seq<DynType>, r: Option<DynType>) -> bool {
        true
    }

    fn call(&self, args: &[DynType]) -> (r: Option<DynType>)
        ensures
            self.gives(args@, r),
    ;
}

/// A table from function names to host-defined functions.
///
/// The entries are kept in a `Vec` of pairs, each name at most once, rather
/// than in a `HashMap`: vstd describes `HashMap` lookups only for key types
/// that obey its key model, which it establishes for integer and `bool` keys
/// but not for `String`, so no lookup by name could be proved on one.
pub struct FunctionRegistry<F> {
    functions: Vec<(String, F)>,
}

/// The function registered last under `name` in `entries`.
pub open spec fn lookup<F>(entries: Seq<(String, F)>, name: Seq<char>) -> Option<F>
    decreases entries.len(),
{
    if entries.len() == 0 {
        None
    } else if entries.last().0@ == name {
        Some(entries.last().1)
    } else {
        lookup(entries.drop_last(), name)
    }
}

/// No name stands twice in `entries`.
pub open spec fn names_unique<F>(entries: Seq<(String, F)>) -> bool {
    forall|i: int, j: int|
        0 <= i < j < entries.len() ==> (#[trigger] entries[i]).0@ != (#[trigger] entries[j]).0@
}

proof fn lemma_lookup_found<F>(entries: Seq<(String, F)>, i: int)
    requires
        names_unique(entries),
        0 <= i < entries.len(),
    ensures
        lookup(entries, entries[i].0@) == Some(entries[i].1),
    decreases entries.len(),
{
    if i < entries.len() - 1 {
        assert(entries[i].0@ != entries[entries.len() - 1].0@);
        lemma_lookup_found(entries.drop_last(), i);
    }
}

proof fn lemma_lookup_missing<F>(entries: Seq<(String, F)>, name: Seq<char>)
    requires
        forall|i: int| 0 <= i < entries.len() ==> (#[trigger] entries[i]).0@ != name,
    ensures
        lookup(entries, name) is None,
    decreases entries.len(),
{
    if entries.len() > 0 {
        assert(entries[entries.len() - 1].0@ != name);
        lemma_lookup_missing(entries.drop_last(), name);
    }
}

proof fn lemma_lookup_replace<F>(entries: Seq<(String, F)>, i: int, e: (String, F), name: Seq<char>)
    requires
        names_unique(entries),
        0 <= i < entries.len(),
        entries[i].0@ == e.0@,
    ensures
        lookup(entries.update(i, e), name) == if name == e.0@ {
            Some(e.1)
        } else {
            lookup(entries, name)
        },
    decreases entries.len(),
{
    let n = entries.len() - 1;
    let u = entries.update(i, e);
    if i == n {
        assert(u.drop_last() == entries.drop_last());
    } else {
        assert(u.drop_last() == entries.drop_last().update(i, e));
        assert(entries[i].0@ != entries[n].0@);
        lemma_lookup_replace(entries.drop_last(), i, e, name);
    }
}

impl<F: DynamicFunctionTrait> FunctionRegistry<F> {
    /// The function registered under `name`, if any.
    pub closed spec fn function(&self, name: Seq<char>) -> Option<F> {
        lookup(self.functions@, name)
    }

    /// The table holds each name at most once.
    pub closed spec fn wf(&self) -> bool {
        names_unique(self.functions@)
    }

    /// An empty registry.
    pub fn new() -> (r: Self)
        ensures
            r.wf(),
            forall|name: Seq<char>| #[trigger] r.function(name) is None,
    {
        FunctionRegistry { functions: Vec::new() }
    }

    /// The index of the entry named `name`, if there is one.
    fn position(&self, name: &String) -> (r: Option<usize>)
        requires
            self.wf(),
        ensures
            match r {
                Some(i) => i < self.functions@.len() && self.functions@[i as int].0@ == name@,
                None => forall|i: int|
                    0 <= i < self.functions@.len() ==> (#[trigger] self.functions@[i]).0@ != name@,
            },
    {
        let mut i: usize = 0;
        while i < self.functions.len()
            invariant
                i <= self.functions@.len(),
                forall|k: int| 0 <= k < i ==> (#[trigger] self.functions@[k]).0@ != name@,
            decreases self.functions@.len() - i,
        {
            if self.functions[i].0 == *name {
                return Some(i);
            }
            i = i + 1;
        }
        None
    }

    /// Registers `function` under `name`, replacing any function registered
    /// under that name before.
    pub fn register_function(&mut self, name: String, function: F)
        requires
            old(self).wf(),
        ensures
            final(self).wf(),
            final(self).function(name@) == Some(function),
            forall|other: Seq<char>|
                other != name@ ==> #[trigger] final(self).function(other) == old(self).function(other),
    {
        match self.position(&name) {
            Some(i) => {
                let ghost before = self.functions@;
                let ghost key = name@;
                let entry = (name, function);
                self.functions.set(i, entry);
                proof {
                    assert(self.functions@ == before.update(i as int, entry));
                    assert forall|other: Seq<char>| #[trigger] lookup(self.functions@, other) == if other == key {
                        Some(entry.1)
                    } else {
                        lookup(before, other)
                    } by {
                        lemma_lookup_replace(before, i as int, entry, other);
                    }
                    assert forall|x: int, y: int| 0 <= x < y < self.functions@.len() implies (
                    #[trigger] self.functions@[x]).0@ != (#[trigger] self.functions@[y]).0@ by {
                        assert(before[x].0@ != before[y].0@);
                    }
                }
            },
            None => {
                let ghost before = self.functions@;
                self.functions.push((name, function));
                proof {
                    assert(self.functions@.drop_last() == before);
                    assert forall|x: int, y: int| 0 <= x < y < self.functions@.len() implies (
                    #[trigger] self.functions@[x]).0@ != (#[trigger] self.functions@[y]).0@ by {
                        if y < before.len() {
                            assert(before[x].0@ != before[y].0@);
                        } else {
                            assert(before[x].0@ != self.functions@[y].0@);
                        }
                    }
                }
            },
        }
    }

    /// The function registered under `name`, if any.
    pub fn find_function(&self, name: &str) -> (r: Option<&F>)
        requires
            self.wf(),
        ensures
            match r {
                Some(f) => self.function(name@) == Some(*f),
                None => self.function(name@) is None,
            },
    {
        let key = name.to_owned();
        match self.position(&key) {
            Some(i) => {
                proof {
                    lemma_lookup_found(self.functions@, i as int);
                }
                Some(&self.functions[i].1)
            },
            None => {
                proof {
                    lemma_lookup_missing(self.functions@, name@);
                }
                None
            },
        }
    }

    /// Calls the function registered under `name` with `args` and returns
    /// what it returns. A name that was never registered gives `None`.
    pub fn call_function(&self, name: &str, args: &[DynType]) -> (r: Option<DynType>)
        requires
            self.wf(),
        ensures
            match self.function(name@) {
                Some(f) => f.gives(args@, r),
                None => r is None,
            },
    {
        match self.find_function(name) {
            Some(func) => func.call(args),
            None => None,
        }
    }

    /// Calls the function that `call` names with the literal parameters of
    /// `call`, in order; nested calls among its parameters are not passed.
    /// A name that was never registered gives `None`.
    pub fn dispatch(&self, call: DynFunction) -> (r: Option<DynType>)
        requires
            self.wf(),
        ensures
            match self.function(call.name@) {
                Some(f) => f.gives(literal_values(call.params@), r),
                None => r is None,
            },
    {
        let name = call.name.clone();
        let args = call.get_all_value();
        self.call_function(name.as_str(), args.as_slice())
    }
}

} // verus!
