use vstd::prelude::*;

use std::collections::HashMap;

use crate::def::DefId;
use crate::span::Symbol;

verus! {

broadcast use vstd::std_specs::hash::group_hash_axioms;

/// One lexical scope: the locals it declares, by interned name.
#[derive(Debug)]
pub struct Scope {
    pub locals: HashMap<u32, DefId>,
}

impl Scope {
    pub fn new() -> (r: Self)
        ensures
            r.locals@ == Map::<u32, DefId>::empty(),
    {
        Scope { locals: HashMap::new() }
    }
}

/// The nearest binding of `name`, searching the innermost scope first.
pub open spec fn lookup_in(scopes: Seq<Map<u32, DefId>>, name: u32) -> Option<DefId>
    decreases scopes.len(),
{
    if scopes.len() == 0 {
        None
    } else if scopes.last().contains_key(name) {
        Some(scopes.last()[name])
    } else {
        lookup_in(scopes.drop_last(), name)
    }
}

/// A stack of nested scopes, innermost last.
#[derive(Debug)]
pub struct ScopeStack {
    scopes: Vec<Scope>,
}

impl View for ScopeStack {
    type V = Seq<Map<u32, DefId>>;

    closed spec fn view(&self) -> Seq<Map<u32, DefId>> {
        self.scopes@.map_values(|s: Scope| s.locals@)
    }
}

impl ScopeStack {
    pub fn new() -> (r: Self)
        ensures
            r@ == Seq::<Map<u32, DefId>>::empty(),
    {
        let r = ScopeStack { scopes: Vec::new() };
        assert(r@ =~= Seq::<Map<u32, DefId>>::empty());
        r
    }

    /// Opens a new innermost scope.
    pub fn push(&mut self)
        ensures
            final(self)@ == old(self)@.push(Map::<u32, DefId>::empty()),
    {
        self.scopes.push(Scope::new());
        assert(self@ =~= old(self)@.push(Map::<u32, DefId>::empty()));
    }

    /// Closes the innermost scope, if any.
    pub fn pop(&mut self)
        ensures
            final(self)@ == if old(self)@.len() == 0 {
                old(self)@
            } else {
                old(self)@.drop_last()
            },
    {
        if self.scopes.len() > 0 {
            let _ = self.scopes.pop();
            assert(self@ =~= old(self)@.drop_last());
        }
    }

    /// Binds `name` in the innermost scope and returns the binding it
    /// replaced there; with no scope open, nothing happens.
    pub fn insert_current(&mut self, name: Symbol, def: DefId) -> (r: Option<DefId>)
        ensures
            old(self)@.len() == 0 ==> final(self)@ == old(self)@ && r is None,
            old(self)@.len() > 0 ==> {
                &&& final(self)@ == old(self)@.update(
                    old(self)@.len() - 1,
                    old(self)@.last().insert(name.0, def),
                )
                &&& r == if old(self)@.last().contains_key(name.0) {
                    Some(old(self)@.last()[name.0])
                } else {
                    None
                }
            },
    {
        if self.scopes.len() == 0 {
            return None;
        }
        let mut scope = self.scopes.pop().unwrap();
        let r = scope.locals.insert(name.0, def);
        self.scopes.push(scope);
        assert(self@ =~= old(self)@.update(
            old(self)@.len() - 1,
            old(self)@.last().insert(name.0, def),
        ));
        r
    }

    /// The binding of `name` in the innermost scope that has one.
    pub fn lookup(&self, name: Symbol) -> (r: Option<DefId>)
        ensures
            r == lookup_in(self@, name.0),
    {
        let mut i = self.scopes.len();
        assert(self@.take(i as int) =~= self@);
        while i > 0
            invariant
                0 <= i <= self.scopes@.len(),
                lookup_in(self@, name.0) == lookup_in(self@.take(i as int), name.0),
            decreases i,
        {
            proof {
                assert(self@.take(i as int).drop_last() =~= self@.take(i - 1));
                assert(self@.take(i as int).last() == self.scopes@[i - 1].locals@);
            }
            match self.scopes[i - 1].locals.get(&name.0) {
                Some(def) => {
                    return Some(*def);
                },
                None => {},
            }
            i = i - 1;
        }
        None
    }
}

/// A binding made in the innermost scope is what a lookup then finds.
pub proof fn lemma_lookup_after_insert(scopes: Seq<Map<u32, DefId>>, name: u32, def: DefId)
    requires
        scopes.len() > 0,
    ensures
        lookup_in(scopes.update(scopes.len() - 1, scopes.last().insert(name, def)), name) == Some(
            def,
        ),
{
    let s2 = scopes.update(scopes.len() - 1, scopes.last().insert(name, def));
    assert(s2.last() == scopes.last().insert(name, def));
}

/// Bindings of other names are unaffected by an insertion.
pub proof fn lemma_lookup_other_after_insert(
    scopes: Seq<Map<u32, DefId>>,
    name: u32,
    other: u32,
    def: DefId,
)
    requires
        scopes.len() > 0,
        name != other,
    ensures
        lookup_in(scopes.update(scopes.len() - 1, scopes.last().insert(name, def)), other)
            == lookup_in(scopes, other),
{
    let s2 = scopes.update(scopes.len() - 1, scopes.last().insert(name, def));
    assert(s2.drop_last() =~= scopes.drop_last());
}

/// Opening a scope and closing it again restores every lookup: bindings
/// made in an inner scope do not outlive it.
pub proof fn lemma_push_pop_restores(scopes: Seq<Map<u32, DefId>>, inner: Map<u32, DefId>)
    ensures
        scopes.push(inner).drop_last() == scopes,
{
    assert(scopes.push(inner).drop_last() =~= scopes);
}

/// A fresh innermost scope hides nothing: lookups see the outer bindings.
pub proof fn lemma_lookup_through_empty_scope(scopes: Seq<Map<u32, DefId>>, name: u32)
    ensures
        lookup_in(scopes.push(Map::<u32, DefId>::empty()), name) == lookup_in(scopes, name),
{
    assert(scopes.push(Map::<u32, DefId>::empty()).drop_last() =~= scopes);
}

} // verus!
