use vstd::prelude::*;
use std::rc::Rc;
use crate::object::{obj_view, Object, Val};
use crate::builtins;
use crate::semantics::{builtin_named, env_empty, env_enclosed, env_get, env_set, lookup_store};
use crate::basics::share;

verus! {

broadcast use vstd::std_specs::vec::axiom_vec_index_decreases,
    vstd::std_specs::vec::axiom_vec_decreases_to_view, vstd::seq::axiom_seq_index_decreases,
    vstd::seq::axiom_seq_subrange_decreases;

/// The model of a scope: its own bindings, oldest first, and the enclosing scope.
pub struct Env {
    pub store: Seq<(Seq<char>, Val)>,
    pub outer: Option<Box<Env>>,
}

/// A lexical scope: bindings made in it, and the scope it is nested in.
#[derive(Debug)]
pub struct Environment {
    pub store: Vec<(String, Object)>,
    pub outer: Option<Rc<Environment>>,
}

pub open spec fn env_view(e: Environment) -> Env
    decreases e,
{
    Env {
        store: store_view(e.store@),
        outer: match e.outer {
            Some(o) => Some(Box::new(env_view(*o))),
            None => None,
        },
    }
}

pub open spec fn store_view(s: Seq<(String, Object)>) -> Seq<(Seq<char>, Val)>
    decreases s,
{
    if s.len() == 0 {
        seq![]
    } else {
        store_view(s.drop_last()).push((s.last().0@, obj_view(s.last().1)))
    }
}

impl View for Environment {
    type V = Env;

    open spec fn view(&self) -> Env {
        env_view(*self)
    }
}

pub proof fn lemma_store_view(s: Seq<(String, Object)>)
    ensures
        store_view(s).len() == s.len(),
        forall|i: int|
            0 <= i < s.len() ==> #[trigger] store_view(s)[i] == (s[i].0@, obj_view(s[i].1)),
    decreases s.len(),
{
    if s.len() > 0 {
        lemma_store_view(s.drop_last());
    }
}

proof fn lemma_store_view_empty(s: Seq<(String, Object)>)
    requires
        s.len() == 0,
    ensures
        store_view(s) == Seq::<(Seq<char>, Val)>::empty(),
{
    assert(store_view(s) =~= Seq::<(Seq<char>, Val)>::empty());
}

impl Environment {
    /// An empty top-level scope.
    pub fn new() -> (r: Environment)
        ensures
            r@ == env_empty(),
    {
        let r = Environment { store: Vec::new(), outer: None };
        proof {
            lemma_store_view_empty(r.store@);
        }
        r
    }

    /// A fresh scope nested inside this one.
    pub fn new_outer(self) -> (r: Environment)
        ensures
            r@ == env_enclosed(self@),
    {
        let r = Environment { store: Vec::new(), outer: Some(Rc::new(self)) };
        proof {
            lemma_store_view_empty(r.store@);
        }
        r
    }

    /// A fresh scope nested inside a shared one.
    pub fn enclosed_by(outer: &Rc<Environment>) -> (r: Environment)
        ensures
            r@ == env_enclosed((**outer)@),
    {
        let r = Environment { store: Vec::new(), outer: Some(share(outer)) };
        proof {
            lemma_store_view_empty(r.store@);
        }
        r
    }

    /// The value of `name`: its binding here or in an enclosing scope, else
    /// the built-in function of that name.
    pub fn get(&self, name: &str) -> (r: Option<Object>)
        ensures
            match env_get(self@, name@) {
                Some(v) => r is Some && r->Some_0@ == v,
                None => match builtin_named(name@) {
                    Some(b) => r is Some && r->Some_0@ == Val::Builtin(b),
                    None => r is None,
                },
            },
    {
        match self.binding(name) {
            Some(v) => Some(v),
            None => match builtins::lookup(name) {
                Some(b) => Some(Object::Builtin { func: b }),
                None => None,
            },
        }
    }

    /// The binding of `name` here or in an enclosing scope.
    fn binding(&self, name: &str) -> (r: Option<Object>)
        ensures
            match env_get(self@, name@) {
                Some(v) => r is Some && r->Some_0@ == v,
                None => r is None,
            },
        decreases self,
    {
        let key = name.to_string();
        assert(key@ == name@);
        let mut i = self.store.len();
        proof {
            lemma_store_view(self.store@);
            assert(store_view(self.store@).take(i as int) =~= store_view(self.store@));
        }
        while i > 0
            invariant
                i <= self.store.len(),
                key@ == name@,
                store_view(self.store@).len() == self.store.len(),
                forall|j: int|
                    0 <= j < self.store.len() ==> #[trigger] store_view(self.store@)[j] == (
                        self.store@[j].0@,
                        obj_view(self.store@[j].1),
                    ),
                lookup_store(store_view(self.store@), name@) == lookup_store(
                    store_view(self.store@).take(i as int),
                    name@,
                ),
            decreases i,
        {
            proof {
                assert(store_view(self.store@).take(i as int).drop_last() =~= store_view(
                    self.store@,
                ).take(i as int - 1));
            }
            proof {
                assert(store_view(self.store@).take(i as int).last() == store_view(self.store@)[i
                    - 1]);
            }
            if self.store[i - 1].0 == key {
                proof {
                    assert(self@.store == store_view(self.store@));
                }
                return Some(self.store[i - 1].1.copy());
            }
            i = i - 1;
        }
        proof {
            assert(self@.store == store_view(self.store@));
            assert(store_view(self.store@).take(0) =~= Seq::<(Seq<char>, Val)>::empty());
        }
        match &self.outer {
            Some(o) => o.binding(name),
            None => None,
        }
    }

    /// Binds `name` to `value` in this scope and gives the value back.
    pub fn set(&mut self, name: String, value: Object) -> (r: Object)
        ensures
            final(self)@ == env_set(old(self)@, name@, value@),
            r == value,
    {
        let r = value.copy();
        proof {
            assert(self.store@.push((name, value)).drop_last() =~= self.store@);
        }
        self.store.push((name, value));
        proof {
            assert(store_view(self.store@) == store_view(old(self).store@).push((name@, value@)));
            assert(final(self)@.store == env_set(old(self)@, name@, value@).store);
        }
        r
    }

    /// A copy of this scope: later bindings made here do not show in it.
    pub fn snapshot(&self) -> (r: Environment)
        ensures
            r@ == self@,
    {
        let mut store: Vec<(String, Object)> = Vec::new();
        let mut i: usize = 0;
        while i < self.store.len()
            invariant
                i <= self.store.len(),
                store@ == self.store@.take(i as int),
            decreases self.store.len() - i,
        {
            let entry = (self.store[i].0.clone(), self.store[i].1.copy());
            store.push(entry);
            i = i + 1;
            proof {
                assert(store@ =~= self.store@.take(i as int));
            }
        }
        proof {
            assert(store@ =~= self.store@);
        }
        let outer = match &self.outer {
            Some(o) => Some(share(o)),
            None => None,
        };
        Environment { store, outer }
    }
}

} // verus!
