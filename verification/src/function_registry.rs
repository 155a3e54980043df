//! Functions and factories of functions, by name.

use crate::nd::F32;
use crate::strmap::{entries_map, keys_distinct, with_entry, without_key, StrMap};
use crate::tensor::share;
use crate::text::join3;
use std::sync::Arc;
use vstd::prelude::*;

verus! {

/// A function and a line about it.
pub struct FuncMeta<F> {
    f: Arc<F>,
    doc: &'static str,
}

impl<F> FuncMeta<F> {
    /// The function.
    pub closed spec fn func(&self) -> F {
        *self.f
    }

    /// The line about it.
    pub closed spec fn line(&self) -> Seq<char> {
        self.doc@
    }

    /// A function with a line about it.
    pub fn new(f: F, doc: &'static str) -> (r: Self)
        ensures
            r.func() == f,
            r.line() == doc@,
    {
        FuncMeta { f: Arc::new(f), doc }
    }

    /// The function, shared.
    pub fn function(&self) -> (r: Arc<F>)
        ensures
            *r == self.func(),
    {
        share(&self.f)
    }

    /// The line about it.
    pub fn doc(&self) -> (r: &'static str)
        ensures
            r@ == self.line(),
    {
        self.doc
    }
}

/// Functions by name, and factories by name: a factory makes a function from
/// a list of parameters. The two have names of their own.
pub struct FunctionRegistry<F, G> {
    registry: StrMap<FuncMeta<F>>,
    factories: StrMap<G>,
}

/// A line of the listing.
pub open spec fn listing_line(name: Seq<char>, doc: Seq<char>) -> Seq<char> {
    name + ": "@ + doc
}

impl<F, G> FunctionRegistry<F, G> {
    /// The functions by name.
    pub closed spec fn functions(&self) -> Map<Seq<char>, FuncMeta<F>> {
        self.registry@
    }

    /// The names of the functions in the order in which they came in, each
    /// with its function.
    pub closed spec fn entries(&self) -> Seq<(Seq<char>, FuncMeta<F>)> {
        self.registry.list()
    }

    /// The factories by name.
    pub closed spec fn makers(&self) -> Map<Seq<char>, G> {
        self.factories@
    }

    /// A registry of these functions.
    pub fn new(registry: StrMap<FuncMeta<F>>) -> (r: Self)
        ensures
            r.functions() == registry@,
            r.entries() == registry.list(),
            r.makers() == Map::<Seq<char>, G>::empty(),
    {
        FunctionRegistry { registry, factories: StrMap::new() }
    }

    /// A registry of nothing.
    pub fn empty() -> (r: Self)
        ensures
            r.functions() == Map::<Seq<char>, FuncMeta<F>>::empty(),
            r.entries() == Seq::<(Seq<char>, FuncMeta<F>)>::empty(),
            r.makers() == Map::<Seq<char>, G>::empty(),
    {
        FunctionRegistry { registry: StrMap::new(), factories: StrMap::new() }
    }

    /// Registers a function, in place of any that had the name.
    pub fn register(&mut self, name: &'static str, f: F, doc: &'static str)
        ensures
            final(self).registers(old(self), name@, f, doc@),
    {
        self.replace(name, f, doc);
    }

    /// Registers a plain function, in place of any that had the name.
    pub fn register_fn(&mut self, name: &'static str, f: F, doc: &'static str)
        ensures
            final(self).registers(old(self), name@, f, doc@),
    {
        self.replace(name, f, doc);
    }

    /// The registry is what it was before, with one function registered.
    pub open spec fn registers(&self, before: &Self, name: Seq<char>, f: F, doc: Seq<char>) -> bool {
        &&& exists|m: FuncMeta<F>|
            {
                &&& m.func() == f
                &&& m.line() == doc
                &&& self.functions() == #[trigger] before.functions().insert(name, m)
                &&& self.entries() == with_entry(before.entries(), name, m)
            }
        &&& self.makers() == before.makers()
    }

    /// Registers a factory, in place of any that had the name.
    pub fn register_factory(&mut self, name: &'static str, factory: G)
        ensures
            final(self).makers() == old(self).makers().insert(name@, factory),
            final(self).functions() == old(self).functions(),
            final(self).entries() == old(self).entries(),
    {
        self.factories.insert(name, factory);
    }

    /// Removes a function. Tells whether there was one.
    pub fn remove(&mut self, name: &str) -> (r: bool)
        ensures
            r == old(self).functions().dom().contains(name@),
            final(self).functions() == old(self).functions().remove(name@),
            final(self).entries() == without_key(old(self).entries(), name@),
            final(self).makers() == old(self).makers(),
    {
        match self.registry.remove(name) {
            Some(_) => true,
            None => false,
        }
    }

    /// Registers a function and returns what had the name before.
    pub fn replace(&mut self, name: &'static str, f: F, doc: &'static str) -> (r: Option<
        FuncMeta<F>,
    >)
        ensures
            final(self).registers(old(self), name@, f, doc@),
            match r {
                Some(m) => old(self).functions().dom().contains(name@) && m
                    == old(self).functions()[name@],
                None => !old(self).functions().dom().contains(name@),
            },
    {
        let meta = FuncMeta::new(f, doc);
        let ghost m = meta;
        let r = self.registry.insert(name, meta);
        assert(self.functions() == old(self).functions().insert(name@, m));
        r
    }

    /// The function with a name, shared.
    pub fn get(&self, name: &str) -> (r: Option<Arc<F>>)
        ensures
            match r {
                Some(f) => self.functions().dom().contains(name@) && *f
                    == self.functions()[name@].func(),
                None => !self.functions().dom().contains(name@),
            },
    {
        match self.registry.get(name) {
            Some(m) => Some(m.function()),
            None => None,
        }
    }

    /// A line for each function, in the order in which the names came in.
    pub fn list_functions(&self) -> (r: Vec<String>)
        ensures
            keys_distinct(self.entries()),
            entries_map(self.entries()) == self.functions(),
            r@.len() == self.entries().len(),
            forall|i: int|
                0 <= i < r@.len() ==> (#[trigger] r@[i])@ == listing_line(
                    self.entries()[i].0,
                    self.entries()[i].1.line(),
                ),
    {
        let n: usize = self.registry.len();
        let mut lines: Vec<String> = Vec::new();
        let mut i: usize = 0;
        while i < n
            invariant
                i <= n,
                n == self.entries().len(),
                lines@.len() == i,
                forall|j: int|
                    0 <= j < i ==> (#[trigger] lines@[j])@ == listing_line(
                        self.entries()[j].0,
                        self.entries()[j].1.line(),
                    ),
            decreases n - i,
        {
            let line = join3(self.registry.key_at(i), ": ", self.registry.value_at(i).doc());
            lines.push(line);
            i = i + 1;
        }
        lines
    }
}

impl<F, G: Fn(&[F32]) -> Arc<F>> FunctionRegistry<F, G> {
    /// Has a factory make a function, if there is one with the name.
    pub fn call_factory(&self, name: &str, params: &[F32]) -> (r: Option<Arc<F>>)
        requires
            self.makers().dom().contains(name@) ==> call_requires(
                self.makers()[name@],
                (params,),
            ),
        ensures
            match r {
                Some(f) => self.makers().dom().contains(name@) && call_ensures(
                    self.makers()[name@],
                    (params,),
                    f,
                ),
                None => !self.makers().dom().contains(name@),
            },
    {
        match self.factories.get(name) {
            Some(factory) => Some(factory(params)),
            None => None,
        }
    }
}

/// What was registered under a name is what the name stands for, and every
/// other name stands for what it stood for.
pub proof fn law_registered_is_found<F, G>(
    before: &FunctionRegistry<F, G>,
    after: &FunctionRegistry<F, G>,
    name: Seq<char>,
    f: F,
    doc: Seq<char>,
)
    requires
        after.registers(before, name, f, doc),
    ensures
        after.functions().dom().contains(name),
        after.functions()[name].func() == f,
        after.functions()[name].line() == doc,
        forall|other: Seq<char>|
            other != name ==> {
                &&& #[trigger] after.functions().dom().contains(other)
                    == before.functions().dom().contains(other)
                &&& after.functions()[other] == before.functions()[other]
            },
{
}

} // verus!
