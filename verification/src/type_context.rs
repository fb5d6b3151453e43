use vstd::prelude::*;

use std::collections::HashMap;

use vstd::std_specs::hash::spec_keys_iter;
use vstd::std_specs::iter::IteratorSpec;

use crate::span::NodeId;
use crate::ty::{Type, TypeShape};

verus! {

broadcast use vstd::std_specs::hash::group_hash_axioms;

/// The types found for expression nodes, by node id.
pub struct TypeContext {
    pub types: HashMap<u32, Type>,
}

impl TypeContext {
    /// The shapes of the recorded types, by raw node id.
    pub open spec fn shapes(&self) -> Map<u32, TypeShape> {
        self.types@.map_values(|t: Type| t.shape())
    }

    /// No type recorded.
    pub fn new() -> (r: TypeContext)
        ensures
            r.types@ == Map::<u32, Type>::empty(),
    {
        TypeContext { types: HashMap::new() }
    }

    /// Records `ty` for node `id`, replacing what was there.
    pub fn insert(&mut self, id: NodeId, ty: Type)
        ensures
            final(self).types@ == old(self).types@.insert(id.0, ty),
    {
        self.types.insert(id.0, ty);
    }

    /// The type recorded for node `id`.
    pub fn get(&self, id: NodeId) -> (r: Option<&Type>)
        ensures
            match r {
                Some(t) => self.types@.contains_key(id.0) && *t == self.types@[id.0],
                None => !self.types@.contains_key(id.0),
            },
    {
        self.types.get(&id.0)
    }

    /// Every recorded node with a copy of its type, each once, in the
    /// order the map is walked.
    pub fn iter(&self) -> (r: Vec<(NodeId, Type)>)
        ensures
            forall|i: int|
                0 <= i < r@.len() ==> {
                    let k = (#[trigger] r@[i]).0.0;
                    &&& self.types@.contains_key(k)
                    &&& r@[i].1.shape() == self.types@[k].shape()
                    &&& r@[i].1.id == self.types@[k].id
                    &&& r@[i].1.span == self.types@[k].span
                },
            forall|k: u32| #[trigger] self.types@.contains_key(k) ==> exists|i: int| 0 <= i < r@.len() && r@[i].0.0 == k,
            forall|i: int, j: int| 0 <= i < j < r@.len() ==> r@[i].0.0 != r@[j].0.0,
    {
        let ghost ks = spec_keys_iter(&self.types).remaining().unref();
        let mut out: Vec<(NodeId, Type)> = Vec::new();
        for key in it: self.types.keys()
            invariant
                ks == spec_keys_iter(&self.types).remaining().unref(),
                it.seq() == spec_keys_iter(&self.types).remaining(),
                out@.len() == it.index(),
                forall|j: int| 0 <= j < out@.len() ==> (#[trigger] out@[j]).0.0 == ks[j],
                forall|j: int|
                    0 <= j < out@.len() ==> {
                        let k = (#[trigger] out@[j]).0.0;
                        &&& self.types@.contains_key(k)
                        &&& out@[j].1.shape() == self.types@[k].shape()
                        &&& out@[j].1.id == self.types@[k].id
                        &&& out@[j].1.span == self.types@[k].span
                    },
        {
            let k: u32 = *key;
            proof {
                assert(ks[out@.len() as int] == k);
                assert(ks.to_set().contains(k));
            }
            match self.types.get(&k) {
                Some(t) => {
                    out.push((NodeId(k), t.duplicate()));
                },
                None => {},
            }
        }
        proof {
            assert(ks.no_duplicates());
            assert forall|k: u32| #[trigger] self.types@.contains_key(k) implies exists|i: int| 0 <= i < out@.len() && out@[i].0.0 == k by {
                assert(ks.to_set().contains(k));
                let i = choose|i: int| 0 <= i < ks.len() && ks[i] == k;
                assert(out@[i].0.0 == k);
            }
            assert forall|i: int, j: int| 0 <= i < j < out@.len() implies out@[i].0.0 != out@[j].0.0 by {
                assert(out@[i].0.0 == ks[i] && out@[j].0.0 == ks[j]);
            }
        }
        out
    }

    /// Whether no type is recorded.
    pub fn is_empty(&self) -> (r: bool)
        ensures
            r == (self.types@.len() == 0),
    {
        self.types.len() == 0
    }
}

} // verus!
