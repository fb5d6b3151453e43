use vstd::prelude::*;

use crate::span::{NodeId, Span};
use crate::text::str_eq;

verus! {

/// Built-in scalar and string types.
#[derive(Clone, Copy, Debug, PartialEq, Eq, Structural)]
pub enum PrimitiveType {
    I8,
    I16,
    I32,
    I64,
    U8,
    U16,
    U32,
    U64,
    F32,
    F64,
    Bool,
    Char,
    Str,
    CStr,
}

/// One `::`-separated segment of a path.
#[derive(Debug)]
pub struct PathSegment {
    pub name: String,
    pub span: Span,
}

/// A (possibly qualified) name such as `Color::Red`.
#[derive(Debug)]
pub struct Path {
    pub id: NodeId,
    pub segments: Vec<PathSegment>,
    pub span: Span,
}

/// The shape of a written type.
#[derive(Debug)]
pub enum TypeKind {
    Primitive(PrimitiveType),
    Path(Path),
    Ref { mutable: bool, ty: Box<Type> },
    Slice(Box<Type>),
    Array { ty: Box<Type>, len: u64 },
    Tuple(Vec<Type>),
    Void,
}

/// A type as written in source.
#[derive(Debug)]
pub struct Type {
    pub id: NodeId,
    pub kind: TypeKind,
    pub span: Span,
}

/// The shape of a type, with names as character sequences and without
/// node ids or spans.
pub ghost enum TypeShape {
    Primitive(PrimitiveType),
    Path(Seq<Seq<char>>),
    Ref { mutable: bool, ty: Box<TypeShape> },
    Slice(Box<TypeShape>),
    Array { ty: Box<TypeShape>, len: u64 },
    Tuple(Seq<TypeShape>),
    Void,
}

impl PathSegment {
    pub fn duplicate(&self) -> (r: PathSegment)
        ensures
            r.name@ == self.name@,
            r.span == self.span,
    {
        PathSegment { name: self.name.clone(), span: self.span }
    }
}

impl Path {
    /// The segment names, in order.
    pub open spec fn names(self) -> Seq<Seq<char>> {
        self.segments@.map_values(|s: PathSegment| s.name@)
    }

    pub fn duplicate(&self) -> (r: Path)
        ensures
            r.names() == self.names(),
            r.id == self.id,
            r.span == self.span,
    {
        let mut segments: Vec<PathSegment> = Vec::new();
        let mut i: usize = 0;
        while i < self.segments.len()
            invariant
                0 <= i <= self.segments@.len(),
                segments@.len() == i,
                forall|j: int| 0 <= j < i ==> #[trigger] segments@[j].name@ == self.segments@[j].name@,
            decreases self.segments@.len() - i,
        {
            segments.push(self.segments[i].duplicate());
            i = i + 1;
        }
        let r = Path { id: self.id, segments, span: self.span };
        assert(r.names() =~= self.names());
        r
    }
}

impl Type {
    pub open spec fn shape(self) -> TypeShape
        decreases self,
    {
        match self.kind {
            TypeKind::Primitive(p) => TypeShape::Primitive(p),
            TypeKind::Path(path) => TypeShape::Path(path.names()),
            TypeKind::Ref { mutable, ty } => TypeShape::Ref { mutable, ty: Box::new(ty.shape()) },
            TypeKind::Slice(ty) => TypeShape::Slice(Box::new(ty.shape())),
            TypeKind::Array { ty, len } => TypeShape::Array { ty: Box::new(ty.shape()), len },
            TypeKind::Tuple(items) => TypeShape::Tuple(
                Seq::new(
                    items@.len(),
                    |i: int|
                        if 0 <= i < items@.len() {
                            items@[i].shape()
                        } else {
                            TypeShape::Void
                        },
                ),
            ),
            TypeKind::Void => TypeShape::Void,
        }
    }

    /// A copy with the same shape, id and span.
    pub fn duplicate(&self) -> (r: Type)
        ensures
            r.shape() == self.shape(),
            r.id == self.id,
            r.span == self.span,
        decreases self,
    {
        match &self.kind {
            TypeKind::Primitive(p) => Type { id: self.id, kind: TypeKind::Primitive(*p), span: self.span },
            TypeKind::Path(path) => {
                let r = Type { id: self.id, kind: TypeKind::Path(path.duplicate()), span: self.span };
                assert(r.shape() == self.shape());
                r
            },
            TypeKind::Ref { mutable, ty } => Type {
                id: self.id,
                kind: TypeKind::Ref { mutable: *mutable, ty: Box::new(ty.duplicate()) },
                span: self.span,
            },
            TypeKind::Slice(ty) => Type { id: self.id, kind: TypeKind::Slice(Box::new(ty.duplicate())), span: self.span },
            TypeKind::Array { ty, len } => Type {
                id: self.id,
                kind: TypeKind::Array { ty: Box::new(ty.duplicate()), len: *len },
                span: self.span,
            },
            TypeKind::Tuple(items) => {
                let mut out: Vec<Type> = Vec::new();
                let mut i: usize = 0;
                while i < items.len()
                    invariant
                        self.kind == TypeKind::Tuple(*items),
                        0 <= i <= items@.len(),
                        out@.len() == i,
                        forall|j: int| 0 <= j < i ==> #[trigger] out@[j].shape() == items@[j].shape(),
                    decreases items@.len() - i,
                {
                    proof {
                        assert(decreases_to!(*self => self.kind));
                        assert(decreases_to!(self.kind => self.kind->Tuple_0));
                        assert(decreases_to!(*items => items[i as int]));
                        assert(decreases_to!(*self => items[i as int]));
                    }
                    out.push(items[i].duplicate());
                    i = i + 1;
                }
                proof {
                    let a = Seq::new(
                        out@.len(),
                        |j: int|
                            if 0 <= j < out@.len() {
                                out@[j].shape()
                            } else {
                                TypeShape::Void
                            },
                    );
                    let b = Seq::new(
                        items@.len(),
                        |j: int|
                            if 0 <= j < items@.len() {
                                items@[j].shape()
                            } else {
                                TypeShape::Void
                            },
                    );
                    assert(a =~= b);
                }
                let r = Type { id: self.id, kind: TypeKind::Tuple(out), span: self.span };
                assert(self.shape()->Tuple_0.len() == items@.len());
                assert(r.shape()->Tuple_0.len() == items@.len());
                assert forall|j: int| 0 <= j < items@.len() implies r.shape()->Tuple_0[j]
                    == self.shape()->Tuple_0[j] by {
                    assert(r.shape()->Tuple_0[j] == r.kind->Tuple_0@[j].shape());
                    assert(self.shape()->Tuple_0[j] == items@[j].shape());
                }
                assert(r.shape()->Tuple_0 =~= self.shape()->Tuple_0);
                r
            },
            TypeKind::Void => Type { id: self.id, kind: TypeKind::Void, span: self.span },
        }
    }
}

/// The source spelling of each primitive type.
pub open spec fn spec_primitive_to_string(p: PrimitiveType) -> Seq<char> {
    match p {
        PrimitiveType::I8 => "i8"@,
        PrimitiveType::I16 => "i16"@,
        PrimitiveType::I32 => "i32"@,
        PrimitiveType::I64 => "i64"@,
        PrimitiveType::U8 => "u8"@,
        PrimitiveType::U16 => "u16"@,
        PrimitiveType::U32 => "u32"@,
        PrimitiveType::U64 => "u64"@,
        PrimitiveType::F32 => "f32"@,
        PrimitiveType::F64 => "f64"@,
        PrimitiveType::Bool => "bool"@,
        PrimitiveType::Char => "char"@,
        PrimitiveType::Str => "str"@,
        PrimitiveType::CStr => "cstr"@,
    }
}

pub fn primitive_to_string(p: PrimitiveType) -> (r: &'static str)
    ensures
        r@ == spec_primitive_to_string(p),
{
    match p {
        PrimitiveType::I8 => "i8",
        PrimitiveType::I16 => "i16",
        PrimitiveType::I32 => "i32",
        PrimitiveType::I64 => "i64",
        PrimitiveType::U8 => "u8",
        PrimitiveType::U16 => "u16",
        PrimitiveType::U32 => "u32",
        PrimitiveType::U64 => "u64",
        PrimitiveType::F32 => "f32",
        PrimitiveType::F64 => "f64",
        PrimitiveType::Bool => "bool",
        PrimitiveType::Char => "char",
        PrimitiveType::Str => "str",
        PrimitiveType::CStr => "cstr",
    }
}

/// The primitive type a name denotes, if any (`void` denotes none).
pub open spec fn spec_primitive_type(name: Seq<char>) -> Option<PrimitiveType> {
    if name == "i8"@ {
        Some(PrimitiveType::I8)
    } else if name == "i16"@ {
        Some(PrimitiveType::I16)
    } else if name == "i32"@ {
        Some(PrimitiveType::I32)
    } else if name == "i64"@ {
        Some(PrimitiveType::I64)
    } else if name == "u8"@ {
        Some(PrimitiveType::U8)
    } else if name == "u16"@ {
        Some(PrimitiveType::U16)
    } else if name == "u32"@ {
        Some(PrimitiveType::U32)
    } else if name == "u64"@ {
        Some(PrimitiveType::U64)
    } else if name == "f32"@ {
        Some(PrimitiveType::F32)
    } else if name == "f64"@ {
        Some(PrimitiveType::F64)
    } else if name == "bool"@ {
        Some(PrimitiveType::Bool)
    } else if name == "char"@ {
        Some(PrimitiveType::Char)
    } else if name == "str"@ {
        Some(PrimitiveType::Str)
    } else if name == "cstr"@ {
        Some(PrimitiveType::CStr)
    } else {
        None
    }
}

/// Maps a type name written in source to its primitive type.
pub fn primitive_type(name: &str) -> (r: Option<PrimitiveType>)
    ensures
        r == spec_primitive_type(name@),
{
    if str_eq(name, "i8") {
        Some(PrimitiveType::I8)
    } else if str_eq(name, "i16") {
        Some(PrimitiveType::I16)
    } else if str_eq(name, "i32") {
        Some(PrimitiveType::I32)
    } else if str_eq(name, "i64") {
        Some(PrimitiveType::I64)
    } else if str_eq(name, "u8") {
        Some(PrimitiveType::U8)
    } else if str_eq(name, "u16") {
        Some(PrimitiveType::U16)
    } else if str_eq(name, "u32") {
        Some(PrimitiveType::U32)
    } else if str_eq(name, "u64") {
        Some(PrimitiveType::U64)
    } else if str_eq(name, "f32") {
        Some(PrimitiveType::F32)
    } else if str_eq(name, "f64") {
        Some(PrimitiveType::F64)
    } else if str_eq(name, "bool") {
        Some(PrimitiveType::Bool)
    } else if str_eq(name, "char") {
        Some(PrimitiveType::Char)
    } else if str_eq(name, "str") {
        Some(PrimitiveType::Str)
    } else if str_eq(name, "cstr") {
        Some(PrimitiveType::CStr)
    } else {
        None
    }
}

/// Printing a primitive type and reading the name back gives the same type.
pub proof fn lemma_primitive_name_round_trip(p: PrimitiveType)
    ensures
        spec_primitive_type(spec_primitive_to_string(p)) == Some(p),
{
    reveal_strlit("i8");
    reveal_strlit("i16");
    reveal_strlit("i32");
    reveal_strlit("i64");
    reveal_strlit("u8");
    reveal_strlit("u16");
    reveal_strlit("u32");
    reveal_strlit("u64");
    reveal_strlit("f32");
    reveal_strlit("f64");
    reveal_strlit("bool");
    reveal_strlit("char");
    reveal_strlit("str");
    reveal_strlit("cstr");
    assert("i8"@.len() == 2);
    assert("i8"@[0] == 'i');
    assert("i8"@[1] == '8');
    assert("i16"@.len() == 3);
    assert("i16"@[0] == 'i');
    assert("i16"@[1] == '1');
    assert("i16"@[2] == '6');
    assert("i32"@.len() == 3);
    assert("i32"@[0] == 'i');
    assert("i32"@[1] == '3');
    assert("i32"@[2] == '2');
    assert("i64"@.len() == 3);
    assert("i64"@[0] == 'i');
    assert("i64"@[1] == '6');
    assert("i64"@[2] == '4');
    assert("u8"@.len() == 2);
    assert("u8"@[0] == 'u');
    assert("u8"@[1] == '8');
    assert("u16"@.len() == 3);
    assert("u16"@[0] == 'u');
    assert("u16"@[1] == '1');
    assert("u16"@[2] == '6');
    assert("u32"@.len() == 3);
    assert("u32"@[0] == 'u');
    assert("u32"@[1] == '3');
    assert("u32"@[2] == '2');
    assert("u64"@.len() == 3);
    assert("u64"@[0] == 'u');
    assert("u64"@[1] == '6');
    assert("u64"@[2] == '4');
    assert("f32"@.len() == 3);
    assert("f32"@[0] == 'f');
    assert("f32"@[1] == '3');
    assert("f32"@[2] == '2');
    assert("f64"@.len() == 3);
    assert("f64"@[0] == 'f');
    assert("f64"@[1] == '6');
    assert("f64"@[2] == '4');
    assert("bool"@.len() == 4);
    assert("bool"@[0] == 'b');
    assert("bool"@[1] == 'o');
    assert("bool"@[2] == 'o');
    assert("char"@.len() == 4);
    assert("char"@[0] == 'c');
    assert("char"@[1] == 'h');
    assert("char"@[2] == 'a');
    assert("str"@.len() == 3);
    assert("str"@[0] == 's');
    assert("str"@[1] == 't');
    assert("str"@[2] == 'r');
    assert("cstr"@.len() == 4);
    assert("cstr"@[0] == 'c');
    assert("cstr"@[1] == 's');
    assert("cstr"@[2] == 't');
}

} // verus!
