use vstd::prelude::*;

verus! {

/// Identifier of a syntax node.
#[derive(Clone, Copy, Debug, PartialEq, Eq, Structural)]
pub struct NodeId(pub u32);

impl NodeId {
    pub fn new(raw: u32) -> (r: Self)
        ensures
            r.0 == raw,
    {
        NodeId(raw)
    }

    pub fn get(self) -> (r: u32)
        ensures
            r == self.0,
    {
        self.0
    }
}

/// An interned name: an index into the interner's string list.
#[derive(Clone, Copy, Debug, PartialEq, Eq, Structural)]
pub struct Symbol(pub u32);

impl Symbol {
    pub fn new(raw: u32) -> (r: Self)
        ensures
            r.0 == raw,
    {
        Symbol(raw)
    }

    pub fn get(self) -> (r: u32)
        ensures
            r == self.0,
    {
        self.0
    }
}

/// A byte range `start..end` inside the source file `file`.
#[derive(Clone, Copy, Debug, PartialEq, Eq, Structural)]
pub struct Span {
    pub file: u32,
    pub start: u32,
    pub end: u32,
}

impl Span {
    pub fn new(file: u32, start: u32, end: u32) -> (r: Self)
        ensures
            r.file == file,
            r.start == start,
            r.end == end,
    {
        Span { file, start, end }
    }

    /// Number of bytes covered; an inverted span covers none.
    pub open spec fn spec_len(self) -> nat {
        if self.end >= self.start { (self.end - self.start) as nat } else { 0 }
    }

    pub fn len(&self) -> (r: u32)
        ensures
            r == self.spec_len(),
    {
        if self.end >= self.start { self.end - self.start } else { 0 }
    }
}

} // verus!
