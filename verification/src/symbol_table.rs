use vstd::prelude::*;

use std::collections::HashMap;
use vstd::std_specs::hash::spec_keys_iter;
use vstd::std_specs::iter::IteratorSpec;

use crate::def::{Def, DefId, DefKind};
use crate::span::{Span, Symbol};
use crate::text::str_eq;

verus! {

broadcast use vstd::std_specs::hash::group_hash_axioms;

/// Per-type member tables: for each owner definition (by raw id), its
/// members by interned name.
pub type MemberTable = HashMap<u32, HashMap<u32, DefId>>;

/// The member tables as a map of maps.
pub open spec fn members_view(t: MemberTable) -> Map<u32, Map<u32, DefId>> {
    Map::new(|k: u32| t@.contains_key(k), |k: u32| t@[k]@)
}

/// Owners whose member table holds `name`.
pub open spec fn is_owner_of(t: Map<u32, Map<u32, DefId>>, owner: u32, name: u32) -> bool {
    t.contains_key(owner) && t[owner].contains_key(name)
}

/// The member named `name`, provided exactly one owner declares it.
pub open spec fn unique_member(t: Map<u32, Map<u32, DefId>>, name: u32) -> Option<DefId> {
    if exists|o: u32|
        is_owner_of(t, o, name) && forall|o2: u32| #[trigger] is_owner_of(t, o2, name) ==> o2 == o {
        let o = choose|o: u32|
            is_owner_of(t, o, name) && forall|o2: u32| #[trigger] is_owner_of(t, o2, name) ==> o2
                == o;
        Some(t[o][name])
    } else {
        None
    }
}

/// Every definition the resolver knows of, the interned names, and the
/// global, field, method and variant namespaces.
#[derive(Debug)]
pub struct SymbolTable {
    pub globals: HashMap<u32, DefId>,
    pub defs: Vec<Def>,
    pub struct_fields: MemberTable,
    pub struct_methods: MemberTable,
    pub enum_variants: MemberTable,
    pub strings: Vec<String>,
}

/// Looks up `name` in the members of the owner that uniquely declares it.
fn find_unique_member(table: &MemberTable, name: u32) -> (r: Option<DefId>)
    ensures
        r == unique_member(members_view(*table), name),
{
    let ghost t = members_view(*table);
    let ghost ks = spec_keys_iter(table).remaining().unref();
    let mut found: Option<DefId> = None;
    let ghost mut found_owner: u32 = 0;
    let ghost mut i: int = 0;
    for key in it: table.keys()
        invariant
            t == members_view(*table),
            ks == spec_keys_iter(table).remaining().unref(),
            it.seq() == spec_keys_iter(table).remaining(),
            i == it.index(),
            found is None ==> forall|j: int| 0 <= j < i ==> !is_owner_of(t, #[trigger] ks[j], name),
            found matches Some(d) ==> {
                &&& is_owner_of(t, found_owner, name)
                &&& t[found_owner][name] == d
                &&& exists|j: int| 0 <= j < i && ks[j] == found_owner
                &&& forall|j: int|
                    0 <= j < i && is_owner_of(t, #[trigger] ks[j], name) ==> ks[j] == found_owner
            },
    {
        let k: u32 = *key;
        proof {
            assert(ks[i] == k);
            assert(ks.to_set().contains(k));
        }
        match table.get(&k) {
            Some(inner) => {
                match inner.get(&name) {
                    Some(d) => {
                        if found.is_some() {
                            proof {
                                assert(is_owner_of(t, k, name));
                                let j0 = choose|j: int| 0 <= j < i && ks[j] == found_owner;
                                assert(ks.no_duplicates());
                                assert(ks[j0] != ks[i]);
                                assert(unique_member(t, name) is None);
                            }
                            return None;
                        }
                        found = Some(*d);
                        proof {
                            found_owner = k;
                        }
                    },
                    None => {},
                }
            },
            None => {},
        }
        proof {
            i = i + 1;
        }
    }
    proof {
        assert(i == ks.len());
        if found is None {
            assert forall|o: u32| !is_owner_of(t, o, name) by {
                if is_owner_of(t, o, name) {
                    assert(ks.to_set().contains(o));
                }
            }
        } else {
            assert forall|o: u32| #[trigger] is_owner_of(t, o, name) implies o == found_owner by {
                assert(ks.to_set().contains(o));
            }
        }
    }
    found
}

/// Interning `name` into the list `names`: the list grows by the name
/// unless it is already there, and the symbol is the name's position.
pub open spec fn intern_result(names: Seq<Seq<char>>, name: Seq<char>) -> (Seq<Seq<char>>, int) {
    if names.contains(name) {
        (names, names.index_of(name))
    } else {
        (names.push(name), names.len() as int)
    }
}

/// No name occurs twice in the list.
pub open spec fn distinct_names(names: Seq<Seq<char>>) -> bool {
    forall|i: int, j: int| 0 <= i < j < names.len() ==> names[i] != names[j]
}

impl SymbolTable {
    /// The interned names, by symbol number.
    pub open spec fn names(&self) -> Seq<Seq<char>> {
        self.strings@.map_values(|s: String| s@)
    }

    /// Interned names are pairwise distinct.
    pub open spec fn wf(&self) -> bool {
        distinct_names(self.names())
    }

    /// Returns the symbol of `name`, interning it first if it is new.
    pub fn intern(&mut self, name: &str) -> (r: Symbol)
        requires
            old(self).wf(),
            old(self).names().len() < u32::MAX,
        ensures
            final(self).wf(),
            (final(self).names(), r.0 as int) == intern_result(old(self).names(), name@),
            final(self).globals@ == old(self).globals@,
            final(self).defs@ == old(self).defs@,
            final(self).struct_fields@ == old(self).struct_fields@,
            final(self).struct_methods@ == old(self).struct_methods@,
            final(self).enum_variants@ == old(self).enum_variants@,
    {
        let mut i: usize = 0;
        while i < self.strings.len()
            invariant
                *self == *old(self),
                old(self).wf(),
                old(self).names().len() < u32::MAX,
                0 <= i <= self.strings@.len(),
                forall|j: int| 0 <= j < i ==> self.names()[j] != name@,
            decreases self.strings@.len() - i,
        {
            if str_eq(self.strings[i].as_str(), name) {
                proof {
                    assert(self.names()[i as int] == name@);
                    assert(self.names().contains(name@));
                    let k = self.names().index_of(name@);
                    if k != i {
                        assert(self.names()[k] == self.names()[i as int]);
                    }
                }
                return Symbol(i as u32);
            }
            i = i + 1;
        }
        let symbol = Symbol(self.strings.len() as u32);
        self.strings.push(String::from_str(name));
        proof {
            assert(!old(self).names().contains(name@));
            assert(self.names() =~= old(self).names().push(name@));
        }
        symbol
    }

    /// The text of a symbol, or `<invalid>` for a symbol never interned.
    pub fn name(&self, symbol: Symbol) -> (r: &str)
        ensures
            symbol.0 < self.names().len() ==> r@ == self.names()[symbol.0 as int],
            symbol.0 >= self.names().len() ==> r@ == "<invalid>"@,
    {
        let i = symbol.0 as usize;
        if i < self.strings.len() {
            self.strings[i].as_str()
        } else {
            "<invalid>"
        }
    }

    /// Records a new definition; its id is its position in `defs`.
    pub fn add_def(&mut self, name: Symbol, kind: DefKind, span: Span) -> (r: DefId)
        requires
            old(self).defs@.len() < u32::MAX,
        ensures
            r.0 == old(self).defs@.len(),
            final(self).defs@ == old(self).defs@.push(Def { id: r, name, kind, span }),
            final(self).names() == old(self).names(),
            final(self).wf() == old(self).wf(),
            final(self).globals@ == old(self).globals@,
            final(self).struct_fields@ == old(self).struct_fields@,
            final(self).struct_methods@ == old(self).struct_methods@,
            final(self).enum_variants@ == old(self).enum_variants@,
    {
        let id = DefId::new(self.defs.len() as u32);
        self.defs.push(Def { id, name, kind, span });
        id
    }

    /// The definition with the given id, if there is one.
    pub fn def(&self, id: DefId) -> (r: Option<&Def>)
        ensures
            r matches Some(d) ==> id.0 < self.defs@.len() && *d == self.defs@[id.0 as int],
            r is None ==> id.0 >= self.defs@.len(),
    {
        let i = id.index();
        if i < self.defs.len() {
            Some(&self.defs[i])
        } else {
            None
        }
    }

    /// The field named `name`, if exactly one struct declares such a field.
    pub fn find_field_by_name(&self, name: Symbol) -> (r: Option<DefId>)
        ensures
            r == unique_member(members_view(self.struct_fields), name.0),
    {
        find_unique_member(&self.struct_fields, name.0)
    }

    /// The variant named `name`, if exactly one enum declares such a variant.
    pub fn find_variant_by_name(&self, name: Symbol) -> (r: Option<DefId>)
        ensures
            r == unique_member(members_view(self.enum_variants), name.0),
    {
        find_unique_member(&self.enum_variants, name.0)
    }

    /// The method named `name`, if exactly one struct declares such a method.
    pub fn find_method_by_name(&self, name: Symbol) -> (r: Option<DefId>)
        ensures
            r == unique_member(members_view(self.struct_methods), name.0),
    {
        find_unique_member(&self.struct_methods, name.0)
    }
}

impl Default for SymbolTable {
    fn default() -> (r: Self)
        ensures
            r.wf(),
            r.names() == Seq::<Seq<char>>::empty(),
            r.defs@ == Seq::<Def>::empty(),
            r.globals@ == Map::<u32, DefId>::empty(),
            r.struct_fields@ == Map::<u32, HashMap<u32, DefId>>::empty(),
            r.struct_methods@ == Map::<u32, HashMap<u32, DefId>>::empty(),
            r.enum_variants@ == Map::<u32, HashMap<u32, DefId>>::empty(),
    {
        let r = SymbolTable {
            globals: HashMap::new(),
            defs: Vec::new(),
            struct_fields: HashMap::new(),
            struct_methods: HashMap::new(),
            enum_variants: HashMap::new(),
            strings: Vec::new(),
        };
        assert(r.names() =~= Seq::<Seq<char>>::empty());
        r
    }
}

/// Interning is stable: interning a name a second time returns the same
/// symbol and leaves the list unchanged; and the symbol's text is the name.
pub proof fn lemma_intern_idempotent(names: Seq<Seq<char>>, name: Seq<char>)
    requires
        distinct_names(names),
    ensures
        distinct_names(intern_result(names, name).0),
        intern_result(names, name).0[intern_result(names, name).1] == name,
        intern_result(intern_result(names, name).0, name) == intern_result(names, name),
{
    let (n1, i1) = intern_result(names, name);
    if names.contains(name) {
        let k = names.index_of(name);
        assert(names[k] == name);
    } else {
        assert(n1[names.len() as int] == name);
        assert(n1.contains(name));
        let k = n1.index_of(name);
        if k != names.len() {
            assert(names[k] == name);
            assert(names.contains(name));
        }
    }
}

/// Distinct names get distinct symbols.
pub proof fn lemma_intern_injective(names: Seq<Seq<char>>, a: Seq<char>, b: Seq<char>)
    requires
        distinct_names(names),
        a != b,
    ensures
        ({
            let (n1, ia) = intern_result(names, a);
            let (n2, ib) = intern_result(n1, b);
            ia != ib && n2[ia] == a && n2[ib] == b
        }),
{
    lemma_intern_idempotent(names, a);
    let (n1, ia) = intern_result(names, a);
    lemma_intern_idempotent(n1, b);
    let (n2, ib) = intern_result(n1, b);
    assert(n1.len() <= n2.len());
    assert(forall|j: int| 0 <= j < n1.len() ==> n2[j] == n1[j]);
}

} // verus!


