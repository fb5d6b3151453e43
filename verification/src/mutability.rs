use vstd::prelude::*;

verus! {

/// Whether a binding may be mutated.
#[derive(Clone, Copy, Debug, PartialEq, Eq, Structural)]
pub enum Mutability {
    Immutable,
    Mutable,
}

impl Mutability {
    pub fn from_bool(value: bool) -> (r: Self)
        ensures
            r == (if value { Mutability::Mutable } else { Mutability::Immutable }),
    {
        if value {
            Mutability::Mutable
        } else {
            Mutability::Immutable
        }
    }

    pub open spec fn spec_is_mutable(self) -> bool {
        self is Mutable
    }

    pub fn is_mutable(self) -> (r: bool)
        ensures
            r == self.spec_is_mutable(),
    {
        match self {
            Mutability::Mutable => true,
            Mutability::Immutable => false,
        }
    }
}

/// `from_bool` and `is_mutable` are inverse to each other.
pub proof fn lemma_mutability_round_trip(value: bool, m: Mutability)
    ensures
        (if value { Mutability::Mutable } else { Mutability::Immutable }).spec_is_mutable() == value,
        (if m.spec_is_mutable() { Mutability::Mutable } else { Mutability::Immutable }) == m,
{
}

} // verus!
