use vstd::prelude::*;

use crate::ast::{Ast, Item, ItemKind, StructField};
use crate::text::str_eq;
use crate::ty::{Path, PrimitiveType, Type, TypeKind, TypeShape};

verus! {

/// Whether using a value copies it or moves it.
#[derive(Clone, Copy, Debug, PartialEq, Eq, Structural)]
pub enum ValueKind {
    Copy,
    Move,
}

/// The declared struct and enum names of a program, which decide whether a
/// named type is copied or moved.
pub ghost struct CopyMoveModel {
    /// Struct declarations in source order: name and field types.
    pub structs: Seq<(Seq<char>, Seq<TypeShape>)>,
    /// Enum names in source order.
    pub enums: Seq<Seq<char>>,
}

/// The fields of the last struct declared under `name`.
pub open spec fn struct_fields_of(structs: Seq<(Seq<char>, Seq<TypeShape>)>, name: Seq<char>) -> Option<
    Seq<TypeShape>,
>
    decreases structs.len(),
{
    if structs.len() == 0 {
        None
    } else if structs.last().0 == name {
        Some(structs.last().1)
    } else {
        struct_fields_of(structs.drop_last(), name)
    }
}

/// Whether a value of type `t` is copied, expanding named structs at most
/// `fuel` times; None when that is not enough.
pub open spec fn shape_copy(m: CopyMoveModel, t: TypeShape, fuel: nat) -> Option<bool>
    decreases fuel, t, 0nat,
{
    match t {
        TypeShape::Primitive(p) => Some(p != PrimitiveType::Str),
        TypeShape::Slice(_) => Some(false),
        TypeShape::Ref { .. } => Some(true),
        TypeShape::Array { .. } => Some(true),
        TypeShape::Void => Some(true),
        TypeShape::Tuple(items) => all_copy(m, items, fuel),
        TypeShape::Path(names) => {
            if names.len() == 0 {
                Some(true)
            } else if m.enums.contains(names.last()) {
                Some(true)
            } else {
                match struct_fields_of(m.structs, names.last()) {
                    Some(fields) => if fuel == 0 {
                        None
                    } else {
                        all_copy(m, fields, (fuel - 1) as nat)
                    },
                    None => Some(true),
                }
            }
        },
    }
}

/// Whether all of `ts` are copied, looking at them in order and stopping at
/// the first that is moved.
pub open spec fn all_copy(m: CopyMoveModel, ts: Seq<TypeShape>, fuel: nat) -> Option<bool>
    decreases fuel, ts, 1nat,
{
    if ts.len() == 0 {
        Some(true)
    } else {
        match shape_copy(m, ts[0], fuel) {
            None => None,
            Some(false) => Some(false),
            Some(true) => all_copy(m, ts.subrange(1, ts.len() as int), fuel),
        }
    }
}

/// More fuel never changes an answer once there is one.
pub proof fn lemma_shape_copy_fuel(m: CopyMoveModel, t: TypeShape, f: nat, g: nat)
    requires
        shape_copy(m, t, f) is Some,
        f <= g,
    ensures
        shape_copy(m, t, g) == shape_copy(m, t, f),
    decreases f, t, 0nat,
{
    match t {
        TypeShape::Tuple(items) => {
            lemma_all_copy_fuel(m, items, f, g);
        },
        TypeShape::Path(names) => {
            if names.len() > 0 && !m.enums.contains(names.last()) {
                match struct_fields_of(m.structs, names.last()) {
                    Some(fields) => {
                        lemma_all_copy_fuel(m, fields, (f - 1) as nat, (g - 1) as nat);
                    },
                    None => {},
                }
            }
        },
        _ => {},
    }
}

pub proof fn lemma_all_copy_fuel(m: CopyMoveModel, ts: Seq<TypeShape>, f: nat, g: nat)
    requires
        all_copy(m, ts, f) is Some,
        f <= g,
    ensures
        all_copy(m, ts, g) == all_copy(m, ts, f),
    decreases f, ts, 1nat,
{
    if ts.len() > 0 {
        lemma_shape_copy_fuel(m, ts[0], f, g);
        if shape_copy(m, ts[0], f) == Some(true) {
            lemma_all_copy_fuel(m, ts.subrange(1, ts.len() as int), f, g);
        }
    }
}

/// Whether values of type `t` are copied. Named structs are expanded at
/// most once per struct declaration, which is enough for any struct that
/// does not contain itself by value; one that does is moved.
pub open spec fn spec_is_copy(m: CopyMoveModel, t: TypeShape) -> bool {
    shape_copy(m, t, m.structs.len()) == Some(true)
}

/// A value of a declared enum type is copied, whatever else is declared.
pub proof fn law_enum_values_copied(m: CopyMoveModel, names: Seq<Seq<char>>)
    requires
        names.len() > 0,
        m.enums.contains(names.last()),
    ensures
        spec_is_copy(m, TypeShape::Path(names)),
{
}

/// Primitive values are copied except `str`; slices are moved; references,
/// arrays and `void` are copied.
pub proof fn law_builtin_kinds(m: CopyMoveModel, p: PrimitiveType, t: TypeShape, mutable: bool, n: u64)
    ensures
        spec_is_copy(m, TypeShape::Primitive(p)) == (p != PrimitiveType::Str),
        !spec_is_copy(m, TypeShape::Slice(Box::new(t))),
        spec_is_copy(m, TypeShape::Ref { mutable, ty: Box::new(t) }),
        spec_is_copy(m, TypeShape::Array { ty: Box::new(t), len: n }),
        spec_is_copy(m, TypeShape::Void),
{
}

/// A primitive type other than `str`.
pub open spec fn copied_primitive(t: TypeShape) -> bool {
    match t {
        TypeShape::Primitive(p) => p != PrimitiveType::Str,
        _ => false,
    }
}

proof fn lemma_struct_fields_found(structs: Seq<(Seq<char>, Seq<TypeShape>)>, name: Seq<char>)
    requires
        struct_fields_of(structs, name) is Some,
    ensures
        structs.len() > 0,
    decreases structs.len(),
{
}

proof fn lemma_all_copy_str(m: CopyMoveModel, ts: Seq<TypeShape>, fuel: nat)
    requires
        exists|k: int| 0 <= k < ts.len() && ts[k] == TypeShape::Primitive(PrimitiveType::Str),
    ensures
        all_copy(m, ts, fuel) != Some(true),
    decreases ts.len(),
{
    let rest = ts.subrange(1, ts.len() as int);
    if ts[0] != TypeShape::Primitive(PrimitiveType::Str) {
        let k = choose|k: int| 0 <= k < ts.len() && ts[k] == TypeShape::Primitive(PrimitiveType::Str);
        assert(rest[k - 1] == ts[k]);
        lemma_all_copy_str(m, rest, fuel);
        if shape_copy(m, ts[0], fuel) == Some(true) {
            assert(all_copy(m, ts, fuel) == all_copy(m, rest, fuel));
        }
    } else {
        assert(shape_copy(m, ts[0], fuel) == Some(false));
    }
}

proof fn lemma_all_copy_plain(m: CopyMoveModel, ts: Seq<TypeShape>, fuel: nat)
    requires
        forall|k: int| 0 <= k < ts.len() ==> copied_primitive(#[trigger] ts[k]),
    ensures
        all_copy(m, ts, fuel) == Some(true),
    decreases ts.len(),
{
    if ts.len() > 0 {
        let rest = ts.subrange(1, ts.len() as int);
        assert forall|k: int| 0 <= k < rest.len() implies copied_primitive(#[trigger] rest[k]) by {
            assert(rest[k] == ts[k + 1]);
        }
        lemma_all_copy_plain(m, rest, fuel);
        assert(copied_primitive(ts[0]));
        assert(shape_copy(m, ts[0], fuel) == Some(true));
        assert(all_copy(m, ts, fuel) == all_copy(m, rest, fuel));
    }
}

/// A struct (not shadowed by an enum of its name) with a `str` field is
/// moved; one whose fields are all primitives other than `str` is copied.
pub proof fn law_struct_kinds(m: CopyMoveModel, names: Seq<Seq<char>>)
    requires
        names.len() > 0,
        !m.enums.contains(names.last()),
        struct_fields_of(m.structs, names.last()) is Some,
    ensures
        ({
            let fs = struct_fields_of(m.structs, names.last())->0;
            &&& (exists|k: int| 0 <= k < fs.len() && fs[k] == TypeShape::Primitive(PrimitiveType::Str)) ==> !spec_is_copy(
                m,
                TypeShape::Path(names),
            )
            &&& (forall|k: int| 0 <= k < fs.len() ==> copied_primitive(#[trigger] fs[k])) ==> spec_is_copy(m, TypeShape::Path(names))
        }),
{
    let fs = struct_fields_of(m.structs, names.last())->0;
    lemma_struct_fields_found(m.structs, names.last());
    let f = (m.structs.len() - 1) as nat;
    if exists|k: int| 0 <= k < fs.len() && fs[k] == TypeShape::Primitive(PrimitiveType::Str) {
        lemma_all_copy_str(m, fs, f);
    }
    if forall|k: int| 0 <= k < fs.len() ==> copied_primitive(#[trigger] fs[k]) {
        lemma_all_copy_plain(m, fs, f);
    }
}

/// An answer of `shape_copy` as a value kind.
pub open spec fn kind_of_answer(a: Option<bool>) -> Option<ValueKind> {
    match a {
        Some(true) => Some(ValueKind::Copy),
        Some(false) => Some(ValueKind::Move),
        None => None,
    }
}

/// The struct and enum declarations among `items`, in order.
pub open spec fn decls_model(items: Seq<Item>) -> CopyMoveModel
    decreases items.len(),
{
    if items.len() == 0 {
        CopyMoveModel { structs: seq![], enums: seq![] }
    } else {
        let m = decls_model(items.drop_last());
        match items.last().kind {
            ItemKind::Struct(s) => CopyMoveModel {
                structs: m.structs.push((s.name@, field_shapes(s.fields@))),
                enums: m.enums,
            },
            ItemKind::Enum(e) => CopyMoveModel { structs: m.structs, enums: m.enums.push(e.name@) },
            _ => m,
        }
    }
}

/// The types of `fields`, in order.
pub open spec fn field_shapes(fields: Seq<StructField>) -> Seq<TypeShape> {
    fields.map_values(|f: StructField| f.ty.shape())
}

struct StructEntry {
    name: String,
    fields: Vec<Type>,
}

/// Copy-or-move answers for the types of one program.
pub struct CopyMove {
    structs: Vec<StructEntry>,
    enums: Vec<String>,
}

impl View for CopyMove {
    type V = CopyMoveModel;

    closed spec fn view(&self) -> CopyMoveModel {
        CopyMoveModel {
            structs: self.structs@.map_values(
                |e: StructEntry| (e.name@, e.fields@.map_values(|t: Type| t.shape())),
            ),
            enums: self.enums@.map_values(|s: String| s@),
        }
    }
}

impl CopyMove {
    /// Collects the struct and enum declarations of `ast`.
    pub fn from_ast(ast: &Ast) -> (r: CopyMove)
        ensures
            r@ == decls_model(ast.items@),
    {
        let mut model = CopyMove { structs: Vec::new(), enums: Vec::new() };
        let mut i: usize = 0;
        proof {
            assert(ast.items@.take(0) =~= Seq::<Item>::empty());
            assert(model@.structs =~= decls_model(ast.items@.take(0)).structs);
            assert(model@.enums =~= decls_model(ast.items@.take(0)).enums);
        }
        while i < ast.items.len()
            invariant
                0 <= i <= ast.items@.len(),
                model@ == decls_model(ast.items@.take(i as int)),
            decreases ast.items@.len() - i,
        {
            let ghost before = model@;
            proof {
                assert(ast.items@.take(i + 1).drop_last() =~= ast.items@.take(i as int));
                assert(ast.items@.take(i + 1).last() == ast.items@[i as int]);
            }
            match &ast.items[i].kind {
                ItemKind::Struct(item) => {
                    let mut fields: Vec<Type> = Vec::new();
                    let mut j: usize = 0;
                    while j < item.fields.len()
                        invariant
                            0 <= j <= item.fields@.len(),
                            fields@.len() == j,
                            forall|k: int|
                                0 <= k < j ==> #[trigger] fields@[k].shape()
                                    == item.fields@[k].ty.shape(),
                        decreases item.fields@.len() - j,
                    {
                        fields.push(item.fields[j].ty.duplicate());
                        j = j + 1;
                    }
                    model.structs.push(StructEntry { name: item.name.clone(), fields });
                    proof {
                        assert(fields@.map_values(|t: Type| t.shape()) =~= field_shapes(
                            item.fields@,
                        ));
                        assert(model@.structs =~= before.structs.push(
                            (item.name@, field_shapes(item.fields@)),
                        ));
                        assert(model@.enums =~= before.enums);
                    }
                },
                ItemKind::Enum(item) => {
                    model.enums.push(item.name.clone());
                    proof {
                        assert(model@.structs =~= before.structs);
                        assert(model@.enums =~= before.enums.push(item.name@));
                    }
                },
                _ => {},
            }
            i = i + 1;
        }
        proof {
            assert(ast.items@.take(i as int) =~= ast.items@);
        }
        model
    }

    /// Whether values of type `ty` are copied or moved (see `spec_is_copy`).
    pub fn value_kind(&self, ty: &Type) -> (r: ValueKind)
        ensures
            r == (if spec_is_copy(self@, ty.shape()) {
                ValueKind::Copy
            } else {
                ValueKind::Move
            }),
    {
        match self.kind_with_fuel(ty, self.structs.len()) {
            Some(k) => k,
            None => ValueKind::Move,
        }
    }

    /// Whether values of type `ty` are copied.
    pub fn is_copy(&self, ty: &Type) -> (r: bool)
        ensures
            r == spec_is_copy(self@, ty.shape()),
    {
        match self.value_kind(ty) {
            ValueKind::Copy => true,
            ValueKind::Move => false,
        }
    }

    fn kind_with_fuel(&self, ty: &Type, fuel: usize) -> (r: Option<ValueKind>)
        ensures
            r == kind_of_answer(shape_copy(self@, ty.shape(), fuel as nat)),
        decreases fuel, ty, 1nat,
    {
        match &ty.kind {
            TypeKind::Primitive(p) => {
                if *p == PrimitiveType::Str {
                    Some(ValueKind::Move)
                } else {
                    Some(ValueKind::Copy)
                }
            },
            TypeKind::Slice(_) => Some(ValueKind::Move),
            TypeKind::Ref { .. } => Some(ValueKind::Copy),
            TypeKind::Array { .. } => Some(ValueKind::Copy),
            TypeKind::Void => Some(ValueKind::Copy),
            TypeKind::Tuple(items) => {
                let ghost shapes = ty.shape()->Tuple_0;
                let mut i: usize = 0;
                proof {
                    assert(shapes.subrange(0, shapes.len() as int) =~= shapes);
                }
                while i < items.len()
                    invariant
                        ty.kind == TypeKind::Tuple(*items),
                        shapes == ty.shape()->Tuple_0,
                        shapes.len() == items@.len(),
                        forall|k: int| 0 <= k < items@.len() ==> #[trigger] shapes[k] == items@[k].shape(),
                        0 <= i <= items@.len(),
                        all_copy(self@, shapes, fuel as nat) == all_copy(
                            self@,
                            shapes.subrange(i as int, shapes.len() as int),
                            fuel as nat,
                        ),
                    decreases items@.len() - i,
                {
                    let ghost rest = shapes.subrange(i as int, shapes.len() as int);
                    proof {
                        assert(rest[0] == shapes[i as int]);
                        assert(rest.subrange(1, rest.len() as int) =~= shapes.subrange(
                            i + 1,
                            shapes.len() as int,
                        ));
                        assert(decreases_to!(*ty => ty.kind));
                        assert(decreases_to!(ty.kind => ty.kind->Tuple_0));
                        assert(decreases_to!(*items => items[i as int]));
                        assert(decreases_to!(*ty => items[i as int]));
                    }
                    match self.kind_with_fuel(&items[i], fuel) {
                        Some(ValueKind::Move) => {
                            return Some(ValueKind::Move);
                        },
                        None => {
                            return None;
                        },
                        Some(ValueKind::Copy) => {},
                    }
                    i = i + 1;
                }
                Some(ValueKind::Copy)
            },
            TypeKind::Path(path) => {
                self.path_kind(path, Ghost(*ty), fuel)
            },
        }
    }

    fn enum_declared(&self, name: &str) -> (r: bool)
        ensures
            r == self@.enums.contains(name@),
    {
        let mut i: usize = 0;
        while i < self.enums.len()
            invariant
                0 <= i <= self.enums@.len(),
                forall|k: int| 0 <= k < i ==> self.enums@[k]@ != name@,
            decreases self.enums@.len() - i,
        {
            if str_eq(self.enums[i].as_str(), name) {
                proof {
                    assert(self@.enums[i as int] == name@);
                }
                return true;
            }
            i = i + 1;
        }
        proof {
            if self@.enums.contains(name@) {
                let k = choose|k: int| 0 <= k < self@.enums.len() && self@.enums[k] == name@;
                assert(self.enums@[k]@ == name@);
            }
        }
        false
    }

    /// Index of the last struct declared under `name`.
    fn find_struct(&self, name: &str) -> (r: Option<usize>)
        ensures
            match struct_fields_of(self@.structs, name@) {
                Some(fs) => r matches Some(i) && i < self.structs@.len() && self@.structs[i as int].1
                    == fs,
                None => r is None,
            },
    {
        let mut i: usize = self.structs.len();
        proof {
            assert(self@.structs.take(i as int) =~= self@.structs);
        }
        while i > 0
            invariant
                0 <= i <= self.structs@.len(),
                struct_fields_of(self@.structs, name@) == struct_fields_of(
                    self@.structs.take(i as int),
                    name@,
                ),
            decreases i,
        {
            let ghost pre = self@.structs.take(i as int);
            proof {
                assert(pre.last() == self@.structs[i - 1]);
                assert(pre.drop_last() =~= self@.structs.take(i - 1));
            }
            if str_eq(self.structs[i - 1].name.as_str(), name) {
                return Some(i - 1);
            }
            i = i - 1;
        }
        None
    }

    fn path_kind(&self, path: &Path, Ghost(outer): Ghost<Type>, fuel: usize) -> (r: Option<ValueKind>)
        requires
            outer.kind == TypeKind::Path(*path),
        ensures
            r == kind_of_answer(shape_copy(self@, TypeShape::Path(path.names()), fuel as nat)),
        decreases fuel, outer, 0nat,
    {
        let n = path.segments.len();
        if n == 0 {
            return Some(ValueKind::Copy);
        }
        let name = path.segments[n - 1].name.as_str();
        proof {
            assert(path.names().last() == name@);
        }
        if self.enum_declared(name) {
            return Some(ValueKind::Copy);
        }
        match self.find_struct(name) {
            None => Some(ValueKind::Copy),
            Some(k) => {
                if fuel == 0 {
                    return None;
                }
                let fields = &self.structs[k].fields;
                let ghost fs = self@.structs[k as int].1;
                proof {
                    assert(fs == fields@.map_values(|t: Type| t.shape()));
                    assert(fs.subrange(0, fs.len() as int) =~= fs);
                }
                let mut i: usize = 0;
                while i < fields.len()
                    invariant
                        fuel > 0,
                        fs == fields@.map_values(|t: Type| t.shape()),
                        struct_fields_of(self@.structs, name@) == Some(fs),
                        path.names().len() > 0,
                        path.names().last() == name@,
                        !self@.enums.contains(name@),
                        0 <= i <= fields@.len(),
                        all_copy(self@, fs, (fuel - 1) as nat) == all_copy(
                            self@,
                            fs.subrange(i as int, fs.len() as int),
                            (fuel - 1) as nat,
                        ),
                    decreases fields@.len() - i,
                {
                    let ghost rest = fs.subrange(i as int, fs.len() as int);
                    proof {
                        assert(fs.len() == fields@.len());
                        assert(rest.len() > 0);
                        assert(rest[0] == fs[i as int]);
                        assert(fs[i as int] == fields@[i as int].shape());
                        assert(rest.subrange(1, rest.len() as int) =~= fs.subrange(
                            i + 1,
                            fs.len() as int,
                        ));
                    }
                    match self.kind_with_fuel(&fields[i], fuel - 1) {
                        Some(ValueKind::Move) => {
                            return Some(ValueKind::Move);
                        },
                        None => {
                            return None;
                        },
                        Some(ValueKind::Copy) => {},
                    }
                    i = i + 1;
                }
                Some(ValueKind::Copy)
            },
        }
    }
}

} // verus!
