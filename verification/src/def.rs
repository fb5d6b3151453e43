use vstd::prelude::*;

use crate::span::{Span, Symbol};

verus! {

/// Index of a definition in the symbol table.
#[derive(Clone, Copy, Debug, PartialEq, Eq, Structural)]
pub struct DefId(pub u32);

impl DefId {
    pub fn new(raw: u32) -> (r: Self)
        ensures
            r.0 == raw,
    {
        DefId(raw)
    }

    pub fn get(self) -> (r: u32)
        ensures
            r == self.0,
    {
        self.0
    }

    pub fn index(self) -> (r: usize)
        ensures
            r == self.0,
    {
        self.0 as usize
    }
}

/// What a definition names.
#[derive(Clone, Copy, Debug, PartialEq, Eq, Structural)]
pub enum DefKind {
    Function,
    ExportFunction,
    ExternFunction,
    Struct,
    Enum,
    Const,
    Local,
    Field,
    Variant,
    TypeAlias,
    Method,
}

impl DefKind {
    pub open spec fn spec_is_callable(self) -> bool {
        self is Function || self is ExportFunction || self is ExternFunction || self is Method
    }

    pub open spec fn spec_is_type_namespace(self) -> bool {
        self is Struct || self is Enum || self is TypeAlias
    }

    /// Functions of every flavour, and methods, can be called.
    pub fn is_callable(self) -> (r: bool)
        ensures
            r == self.spec_is_callable(),
    {
        match self {
            DefKind::Function | DefKind::ExportFunction | DefKind::ExternFunction
            | DefKind::Method => true,
            _ => false,
        }
    }

    /// The function namespace holds exactly the callable definitions.
    pub fn is_function_namespace(self) -> (r: bool)
        ensures
            r == self.spec_is_callable(),
    {
        self.is_callable()
    }

    /// Structs, enums and type aliases live in the type namespace.
    pub fn is_type_namespace(self) -> (r: bool)
        ensures
            r == self.spec_is_type_namespace(),
    {
        match self {
            DefKind::Struct | DefKind::Enum | DefKind::TypeAlias => true,
            _ => false,
        }
    }
}

/// No definition lives in both the function and the type namespace.
pub proof fn lemma_namespaces_disjoint(kind: DefKind)
    ensures
        !(kind.spec_is_callable() && kind.spec_is_type_namespace()),
{
}

/// A definition recorded by the resolver.
#[derive(Clone, Copy, Debug, PartialEq, Eq, Structural)]
pub struct Def {
    pub id: DefId,
    pub name: Symbol,
    pub kind: DefKind,
    pub span: Span,
}

} // verus!
