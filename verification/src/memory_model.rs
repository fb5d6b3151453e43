use vstd::prelude::*;

use crate::borrow::{
    has_mut_at, imm_count, imm_count_at, lemma_counts_push, lemma_records_kept, mut_count,
    records_kept, BorrowRecord,
};
use crate::copy_move::{spec_is_copy, CopyMoveModel};
use crate::diagnostic::coded_message;
use crate::memory_error::MemoryErrorCode;
use crate::span::Span;
use crate::ty::TypeShape;

verus! {

/// A reference value as the checker sees it.
pub ghost struct RefModel {
    pub origin: Seq<char>,
    pub origin_depth: nat,
    pub mutable: bool,
    pub from_param: bool,
}

/// What the checker knows of one local.
pub ghost struct LocalModel {
    pub ty: TypeShape,
    pub mutable: bool,
    pub moved: Option<Span>,
    pub imm_borrows: nat,
    pub mut_borrow: bool,
    pub records: Seq<BorrowRecord>,
    pub scope_depth: nat,
    pub ref_value: Option<RefModel>,
}

/// A reported diagnostic: message and span.
pub ghost struct DiagModel {
    pub message: Seq<char>,
    pub span: Span,
}

/// The memory checker's state: locals by name, the names defined and
/// borrowed in each open scope, the diagnostics so far, the number of
/// borrows taken so far, and the copy-or-move model of the program.
pub ghost struct CheckerModel {
    pub locals: Seq<(Seq<char>, LocalModel)>,
    pub scopes: Seq<Seq<Seq<char>>>,
    pub scope_borrows: Seq<Seq<Seq<char>>>,
    pub diags: Seq<DiagModel>,
    pub made: nat,
    pub kinds: CopyMoveModel,
}

/// Position of the entry for `name`, if there is one.
pub open spec fn find_local(locals: Seq<(Seq<char>, LocalModel)>, name: Seq<char>) -> Option<int>
    decreases locals.len(),
{
    if locals.len() == 0 {
        None
    } else if locals.last().0 == name {
        Some(locals.len() - 1)
    } else {
        find_local(locals.drop_last(), name)
    }
}

pub proof fn lemma_find_local(locals: Seq<(Seq<char>, LocalModel)>, name: Seq<char>)
    ensures
        find_local(locals, name) matches Some(i) ==> 0 <= i < locals.len() && locals[i].0 == name,
        find_local(locals, name) is None ==> forall|i: int|
            0 <= i < locals.len() ==> #[trigger] locals[i].0 != name,
    decreases locals.len(),
{
    if locals.len() > 0 {
        lemma_find_local(locals.drop_last(), name);
        assert forall|i: int| 0 <= i < locals.len() - 1 implies #[trigger] locals[i] == locals.drop_last()[i] by {}
    }
}

/// The state of local `name`, if it is defined.
pub open spec fn lookup(m: CheckerModel, name: Seq<char>) -> Option<LocalModel> {
    match find_local(m.locals, name) {
        Some(i) => Some(m.locals[i].1),
        None => None,
    }
}

/// Number of open scopes.
pub open spec fn depth(m: CheckerModel) -> nat {
    m.scopes.len()
}

/// Replace or add the entry for `name`.
pub open spec fn set_local(locals: Seq<(Seq<char>, LocalModel)>, name: Seq<char>, l: LocalModel) -> Seq<
    (Seq<char>, LocalModel),
> {
    match find_local(locals, name) {
        Some(i) => locals.update(i, (name, l)),
        None => locals.push((name, l)),
    }
}

/// Drop the entry for `name`, if there is one.
pub open spec fn remove_local(locals: Seq<(Seq<char>, LocalModel)>, name: Seq<char>) -> Seq<
    (Seq<char>, LocalModel),
> {
    match find_local(locals, name) {
        Some(i) => locals.remove(i),
        None => locals,
    }
}

/// A local's borrows are consistent, and each was taken at an open scope
/// whose borrow list names it.
pub open spec fn local_wf(m: CheckerModel, name: Seq<char>, l: LocalModel) -> bool {
    &&& l.imm_borrows == imm_count(l.records)
    &&& l.mut_borrow == (mut_count(l.records) > 0)
    &&& mut_count(l.records) <= 1
    &&& (l.mut_borrow ==> l.imm_borrows == 0)
    &&& l.imm_borrows <= m.made
    &&& forall|k: int|
        0 <= k < l.records.len() ==> 1 <= #[trigger] l.records[k].scope_depth <= depth(m)
            && m.scope_borrows[l.records[k].scope_depth - 1].contains(name)
}

/// The checker's invariant.
pub open spec fn model_wf(m: CheckerModel) -> bool {
    &&& m.scopes.len() == m.scope_borrows.len()
    &&& m.scopes.len() <= usize::MAX
    &&& distinct_names(m.locals)
    &&& forall|i: int| 0 <= i < m.locals.len() ==> local_wf(m, #[trigger] m.locals[i].0, m.locals[i].1)
}

/// A freshly defined local: not moved, not borrowed, at the current depth.
pub open spec fn fresh_local(
    ty: TypeShape,
    mutable: bool,
    scope_depth: nat,
    ref_value: Option<RefModel>,
) -> LocalModel {
    LocalModel {
        ty,
        mutable,
        moved: None,
        imm_borrows: 0,
        mut_borrow: false,
        records: seq![],
        scope_depth,
        ref_value,
    }
}

/// The diagnostic `code: text` at `span`.
pub open spec fn diag(code: MemoryErrorCode, text: Seq<char>, span: Span) -> DiagModel {
    DiagModel { message: coded_message(code.spec_code(), text), span }
}

/// `pre` + `name` + `post`.
pub open spec fn quoted(pre: Seq<char>, name: Seq<char>, post: Seq<char>) -> Seq<char> {
    pre + name + post
}

/// Opens a scope.
pub open spec fn push_scope_model(m: CheckerModel) -> CheckerModel {
    CheckerModel { scopes: m.scopes.push(seq![]), scope_borrows: m.scope_borrows.push(seq![]), ..m }
}

/// Records `name` in the innermost scope's list of defined names.
pub open spec fn note_defined(m: CheckerModel, name: Seq<char>) -> Seq<Seq<Seq<char>>> {
    if m.scopes.len() > 0 {
        m.scopes.update(m.scopes.len() - 1, m.scopes.last().push(name))
    } else {
        m.scopes
    }
}

/// Defines a `let` binding; a reference value that outlives its origin is
/// reported first.
pub open spec fn define_local_model(
    m: CheckerModel,
    name: Seq<char>,
    ty: TypeShape,
    mutable: bool,
    span: Span,
    ref_value: Option<RefModel>,
) -> CheckerModel {
    let escapes = match ref_value {
        Some(r) => r.from_param || r.origin_depth < depth(m),
        None => false,
    };
    CheckerModel {
        locals: set_local(m.locals, name, fresh_local(ty, mutable, depth(m), ref_value)),
        scopes: note_defined(m, name),
        diags: if escapes {
            m.diags.push(
                diag(
                    MemoryErrorCode::ReferenceEscapesFunction,
                    quoted("reference `"@, name, "` escapes its origin scope"@),
                    span,
                ),
            )
        } else {
            m.diags
        },
        ..m
    }
}

/// Defines a parameter: always mutable, never reported.
pub open spec fn define_param_model(
    m: CheckerModel,
    name: Seq<char>,
    ty: TypeShape,
    ref_value: Option<RefModel>,
) -> CheckerModel {
    CheckerModel {
        locals: set_local(m.locals, name, fresh_local(ty, true, depth(m), ref_value)),
        scopes: note_defined(m, name),
        ..m
    }
}

/// `l` with one more borrow, taken at `d`.
pub open spec fn borrowed_local(l: LocalModel, mutable: bool, d: nat, span: Span) -> LocalModel {
    LocalModel {
        imm_borrows: if mutable {
            l.imm_borrows
        } else {
            l.imm_borrows + 1
        },
        mut_borrow: if mutable {
            true
        } else {
            l.mut_borrow
        },
        records: l.records.push(BorrowRecord { mutable, scope_depth: d as usize, span }),
        ..l
    }
}

/// Records a borrow of `name` in the current scope.
pub open spec fn add_borrow_model(m: CheckerModel, name: Seq<char>, mutable: bool, span: Span) -> CheckerModel {
    let d = depth(m);
    CheckerModel {
        locals: match lookup(m, name) {
            Some(l) => set_local(m.locals, name, borrowed_local(l, mutable, d, span)),
            None => m.locals,
        },
        scope_borrows: if m.scope_borrows.len() > 0 && !m.scope_borrows.last().contains(name) {
            m.scope_borrows.update(m.scope_borrows.len() - 1, m.scope_borrows.last().push(name))
        } else {
            m.scope_borrows
        },
        made: m.made + 1,
        ..m
    }
}

/// `l` without the borrows taken at depth `d`.
pub open spec fn released_local(l: LocalModel, d: int) -> LocalModel {
    LocalModel {
        imm_borrows: if l.imm_borrows >= imm_count_at(l.records, d) {
            (l.imm_borrows - imm_count_at(l.records, d)) as nat
        } else {
            0
        },
        mut_borrow: if has_mut_at(l.records, d) {
            false
        } else {
            l.mut_borrow
        },
        records: records_kept(l.records, d),
        ..l
    }
}

/// Releases, for each of `names`, the borrows taken at depth `d`.
pub open spec fn release_all(
    locals: Seq<(Seq<char>, LocalModel)>,
    names: Seq<Seq<char>>,
    d: int,
) -> Seq<(Seq<char>, LocalModel)>
    decreases names.len(),
{
    if names.len() == 0 {
        locals
    } else {
        let before = release_all(locals, names.drop_last(), d);
        match find_local(before, names.last()) {
            Some(i) => before.update(i, (names.last(), released_local(before[i].1, d))),
            None => before,
        }
    }
}

/// Drops the entries of all of `names`.
pub open spec fn remove_all(locals: Seq<(Seq<char>, LocalModel)>, names: Seq<Seq<char>>) -> Seq<
    (Seq<char>, LocalModel),
>
    decreases names.len(),
{
    if names.len() == 0 {
        locals
    } else {
        remove_local(remove_all(locals, names.drop_last()), names.last())
    }
}

/// Closes the innermost scope: its borrows are released and its locals
/// dropped. With no scope open nothing changes.
pub open spec fn pop_scope_model(m: CheckerModel) -> CheckerModel {
    if m.scopes.len() == 0 || m.scope_borrows.len() == 0 {
        m
    } else {
        let d = depth(m) as int;
        let released = release_all(m.locals, m.scope_borrows.last(), d);
        CheckerModel {
            locals: remove_all(released, m.scopes.last()),
            scopes: m.scopes.drop_last(),
            scope_borrows: m.scope_borrows.drop_last(),
            ..m
        }
    }
}

/// Borrowing `name`: the diagnostic that refuses it, if any.
pub open spec fn borrow_refusal(m: CheckerModel, name: Seq<char>, mutable: bool) -> Option<
    (MemoryErrorCode, Seq<char>),
> {
    if mutable {
        if !(lookup(m, name) matches Some(l) && l.mutable) {
            Some(
                (
                    MemoryErrorCode::MutableRefToImmutable,
                    quoted("cannot take mutable reference to immutable `"@, name, "`"@),
                ),
            )
        } else if lookup(m, name) matches Some(l) && l.imm_borrows > 0 {
            Some(
                (
                    MemoryErrorCode::MutableBorrowConflict,
                    quoted("cannot mutably borrow `"@, name, "` while immutably borrowed"@),
                ),
            )
        } else if lookup(m, name) matches Some(l) && l.mut_borrow {
            Some(
                (
                    MemoryErrorCode::MutableBorrowConflict,
                    quoted("cannot mutably borrow `"@, name, "` more than once"@),
                ),
            )
        } else {
            None
        }
    } else if lookup(m, name) matches Some(l) && l.mut_borrow {
        Some(
            (
                MemoryErrorCode::ImmutableBorrowConflict,
                quoted("cannot immutably borrow `"@, name, "` while mutably borrowed"@),
            ),
        )
    } else {
        None
    }
}

/// Borrowing `name` at `span`: refused with a diagnostic, or recorded.
pub open spec fn borrow_model(m: CheckerModel, name: Seq<char>, mutable: bool, span: Span) -> CheckerModel {
    match borrow_refusal(m, name, mutable) {
        Some((code, text)) => CheckerModel { diags: m.diags.push(diag(code, text, span)), ..m },
        None => add_borrow_model(m, name, mutable, span),
    }
}

/// The reference a granted borrow of `name` yields.
pub open spec fn borrow_ref(m: CheckerModel, name: Seq<char>, mutable: bool) -> RefModel {
    RefModel {
        origin: name,
        origin_depth: match lookup(m, name) {
            Some(l) => l.scope_depth,
            None => depth(m),
        },
        mutable,
        from_param: false,
    }
}

/// Assigning to `name` at `span`: refused for an immutable or borrowed
/// local, and otherwise makes the local usable again.
pub open spec fn assign_model(m: CheckerModel, name: Seq<char>, span: Span) -> CheckerModel {
    match lookup(m, name) {
        None => m,
        Some(l) => if !l.mutable {
            CheckerModel {
                diags: m.diags.push(
                    diag(
                        MemoryErrorCode::MutationWithoutMut,
                        quoted("cannot mutate immutable `"@, name, "`"@),
                        span,
                    ),
                ),
                ..m
            }
        } else if l.imm_borrows > 0 || l.mut_borrow {
            CheckerModel {
                diags: m.diags.push(
                    diag(
                        MemoryErrorCode::MutationWhileBorrowed,
                        quoted("cannot mutate `"@, name, "` while borrowed"@),
                        span,
                    ),
                ),
                ..m
            }
        } else {
            CheckerModel { locals: set_local(m.locals, name, LocalModel { moved: None, ..l }), ..m }
        },
    }
}

/// Using `name` at `span`, moving it when `moving`: a moved local is
/// reported where it was moved; moving a borrowed value that is not copied
/// is refused; otherwise a value that is not copied becomes moved.
pub open spec fn use_model(m: CheckerModel, name: Seq<char>, span: Span, moving: bool) -> CheckerModel {
    match lookup(m, name) {
        None => m,
        Some(l) => match l.moved {
            Some(at) => CheckerModel {
                diags: m.diags.push(
                    diag(
                        MemoryErrorCode::UseAfterMove,
                        quoted("use of `"@, name, "` after move"@),
                        at,
                    ),
                ),
                ..m
            },
            None => if moving && !spec_is_copy(m.kinds, l.ty) {
                if l.imm_borrows > 0 || l.mut_borrow {
                    CheckerModel {
                        diags: m.diags.push(
                            diag(
                                MemoryErrorCode::MoveWhileBorrowed,
                                quoted("cannot move `"@, name, "` while borrowed"@),
                                span,
                            ),
                        ),
                        ..m
                    }
                } else {
                    CheckerModel {
                        locals: set_local(m.locals, name, LocalModel { moved: Some(span), ..l }),
                        ..m
                    }
                }
            } else {
                m
            },
        },
    }
}

/// Using a local of a declared enum type that has not been moved, by
/// moving it or reading it, changes nothing and reports nothing: enum
/// values are copied.
pub proof fn law_enum_local_reused(m: CheckerModel, name: Seq<char>, span: Span, moving: bool, names: Seq<Seq<char>>)
    requires
        lookup(m, name) matches Some(l) && l.moved is None && l.ty == TypeShape::Path(names),
        names.len() > 0,
        m.kinds.enums.contains(names.last()),
    ensures
        use_model(m, name, span, moving) == m,
{
    crate::copy_move::law_enum_values_copied(m.kinds, names);
}

/// The entry for `n`, if there is one.
pub open spec fn local_of(locals: Seq<(Seq<char>, LocalModel)>, n: Seq<char>) -> Option<LocalModel> {
    match find_local(locals, n) {
        Some(i) => Some(locals[i].1),
        None => None,
    }
}

/// No name has two entries.
pub open spec fn distinct_names(locals: Seq<(Seq<char>, LocalModel)>) -> bool {
    forall|i: int, j: int| 0 <= i < j < locals.len() ==> #[trigger] locals[i].0 != #[trigger] locals[j].0
}

proof fn lemma_find_unique(locals: Seq<(Seq<char>, LocalModel)>, n: Seq<char>, i: int)
    requires
        distinct_names(locals),
        0 <= i < locals.len(),
        locals[i].0 == n,
    ensures
        find_local(locals, n) == Some(i),
{
    lemma_find_local(locals, n);
    if let Some(k) = find_local(locals, n) {
        if k < i {
            assert(locals[k].0 != locals[i].0);
        } else if i < k {
            assert(locals[i].0 != locals[k].0);
        }
    }
}

/// Where `n` has an entry, and only there, `local_of` finds it.
pub proof fn lemma_local_of(locals: Seq<(Seq<char>, LocalModel)>, n: Seq<char>)
    requires
        distinct_names(locals),
    ensures
        forall|i: int| 0 <= i < locals.len() && #[trigger] locals[i].0 == n ==> local_of(locals, n) == Some(locals[i].1),
        local_of(locals, n) is None <==> forall|i: int| 0 <= i < locals.len() ==> #[trigger] locals[i].0 != n,
{
    lemma_find_local(locals, n);
    assert forall|i: int| 0 <= i < locals.len() && #[trigger] locals[i].0 == n implies local_of(locals, n) == Some(locals[i].1) by {
        lemma_find_unique(locals, n, i);
    }
}

/// Setting an entry changes that name only.
pub proof fn lemma_set_local(locals: Seq<(Seq<char>, LocalModel)>, name: Seq<char>, l: LocalModel)
    requires
        distinct_names(locals),
    ensures
        distinct_names(set_local(locals, name, l)),
        local_of(set_local(locals, name, l), name) == Some(l),
        forall|n: Seq<char>| n != name ==> #[trigger] local_of(set_local(locals, name, l), n) == local_of(locals, n),
        set_local(locals, name, l).len() >= locals.len(),
        forall|i: int| 0 <= i < set_local(locals, name, l).len() ==> (#[trigger] set_local(locals, name, l)[i].0 == name
            || (i < locals.len() && set_local(locals, name, l)[i] == locals[i])),
{
    lemma_find_local(locals, name);
    let r = set_local(locals, name, l);
    assert forall|i: int, j: int| 0 <= i < j < r.len() implies #[trigger] r[i].0 != #[trigger] r[j].0 by {
        if i < locals.len() && j < locals.len() {
            assert(locals[i].0 != locals[j].0);
        }
    }
    let k = choose|k: int| 0 <= k < r.len() && r[k].0 == name;
    assert(0 <= k < r.len() && r[k].0 == name) by {
        match find_local(locals, name) {
            Some(i) => { assert(r[i].0 == name); },
            None => { assert(r[locals.len() as int].0 == name); },
        }
    }
    lemma_local_of(r, name);
    match find_local(locals, name) {
        Some(i) => { assert(r[i] == (name, l)); },
        None => { assert(r[locals.len() as int] == (name, l)); },
    }
    assert forall|n: Seq<char>| n != name implies #[trigger] local_of(r, n) == local_of(locals, n) by {
        lemma_local_of(r, n);
        lemma_local_of(locals, n);
        if local_of(locals, n) is None {
            assert forall|i: int| 0 <= i < r.len() implies #[trigger] r[i].0 != n by {
                if i < locals.len() && r[i] == locals[i] {
                    assert(locals[i].0 != n);
                }
            }
        } else {
            let i = choose|i: int| 0 <= i < locals.len() && #[trigger] locals[i].0 == n;
            assert(0 <= i < locals.len() && locals[i].0 == n) by {
                lemma_find_local(locals, n);
            }
            assert(r[i] == locals[i]);
        }
    }
}

/// Removing an entry removes that name only.
pub proof fn lemma_remove_local(locals: Seq<(Seq<char>, LocalModel)>, name: Seq<char>)
    requires
        distinct_names(locals),
    ensures
        distinct_names(remove_local(locals, name)),
        local_of(remove_local(locals, name), name) is None,
        forall|n: Seq<char>| n != name ==> #[trigger] local_of(remove_local(locals, name), n) == local_of(locals, n),
        forall|i: int| 0 <= i < remove_local(locals, name).len() ==> locals.contains(#[trigger] remove_local(locals, name)[i]),
{
    lemma_find_local(locals, name);
    let r = remove_local(locals, name);
    match find_local(locals, name) {
        None => {
            lemma_local_of(locals, name);
        },
        Some(k) => {
            assert forall|i: int| 0 <= i < r.len() implies #[trigger] r[i] == if i < k { locals[i] } else { locals[i + 1] } by {}
            assert forall|i: int, j: int| 0 <= i < j < r.len() implies #[trigger] r[i].0 != #[trigger] r[j].0 by {
                let a = if i < k { i } else { i + 1 };
                let b = if j < k { j } else { j + 1 };
                assert(r[i] == locals[a] && r[j] == locals[b]);
                assert(locals[a].0 != locals[b].0);
            }
            assert forall|i: int| 0 <= i < r.len() implies #[trigger] r[i].0 != name by {
                let a = if i < k { i } else { i + 1 };
                assert(r[i] == locals[a]);
                assert(locals[a].0 != locals[k].0);
            }
            lemma_local_of(r, name);
            assert forall|n: Seq<char>| n != name implies #[trigger] local_of(r, n) == local_of(locals, n) by {
                lemma_local_of(r, n);
                lemma_local_of(locals, n);
                if local_of(locals, n) is None {
                    assert forall|i: int| 0 <= i < r.len() implies #[trigger] r[i].0 != n by {
                        let a = if i < k { i } else { i + 1 };
                        assert(r[i] == locals[a]);
                    }
                } else {
                    lemma_find_local(locals, n);
                    let i = find_local(locals, n)->0;
                    assert(locals[i].0 == n);
                    let c = if i < k { i } else { i - 1 };
                    assert(r[c] == locals[i]);
                }
            }
            assert forall|i: int| 0 <= i < r.len() implies locals.contains(#[trigger] r[i]) by {
                let a = if i < k { i } else { i + 1 };
                assert(r[i] == locals[a]);
            }
        },
    }
}

proof fn lemma_imm_at_none(records: Seq<BorrowRecord>, d: int)
    requires
        forall|k: int| 0 <= k < records.len() ==> #[trigger] records[k].scope_depth != d,
    ensures
        imm_count_at(records, d) == 0,
        !has_mut_at(records, d),
    decreases records.len(),
{
    if records.len() > 0 {
        assert forall|k: int| 0 <= k < records.drop_last().len() implies #[trigger] records.drop_last()[k].scope_depth != d by {
            assert(records.drop_last()[k] == records[k]);
        }
        lemma_imm_at_none(records.drop_last(), d);
        assert(records[records.len() - 1] == records.last());
    }
}

/// What releasing depth `d` leaves of a consistent local.
proof fn lemma_released_local(l: LocalModel, d: int)
    requires
        l.imm_borrows == imm_count(l.records),
        l.mut_borrow == (mut_count(l.records) > 0),
        mut_count(l.records) <= 1,
        l.mut_borrow ==> l.imm_borrows == 0,
    ensures
        released_local(l, d).imm_borrows == imm_count(released_local(l, d).records),
        released_local(l, d).mut_borrow == (mut_count(released_local(l, d).records) > 0),
        mut_count(released_local(l, d).records) <= 1,
        released_local(l, d).mut_borrow ==> released_local(l, d).imm_borrows == 0,
        released_local(l, d).imm_borrows <= l.imm_borrows,
        forall|k: int| 0 <= k < released_local(l, d).records.len() ==> (#[trigger] released_local(l, d).records[k]).scope_depth != d
            && l.records.contains(released_local(l, d).records[k]),
        released_local(released_local(l, d), d) == released_local(l, d),
{
    lemma_records_kept(l.records, d);
    let kept = records_kept(l.records, d);
    lemma_records_kept(kept, d);
    lemma_imm_at_none(kept, d);
}

/// Releasing a list of names: each named entry is released, the others kept.
pub proof fn lemma_release_all(locals: Seq<(Seq<char>, LocalModel)>, names: Seq<Seq<char>>, d: int)
    requires
        distinct_names(locals),
        forall|i: int| 0 <= i < locals.len() ==> (#[trigger] locals[i]).1.imm_borrows == imm_count(locals[i].1.records)
            && locals[i].1.mut_borrow == (mut_count(locals[i].1.records) > 0)
            && mut_count(locals[i].1.records) <= 1
            && (locals[i].1.mut_borrow ==> locals[i].1.imm_borrows == 0),
    ensures
        release_all(locals, names, d).len() == locals.len(),
        forall|i: int| 0 <= i < locals.len() ==> #[trigger] release_all(locals, names, d)[i] == (locals[i].0,
            if names.contains(locals[i].0) { released_local(locals[i].1, d) } else { locals[i].1 }),
    decreases names.len(),
{
    if names.len() > 0 {
        let init = names.drop_last();
        let n = names.last();
        lemma_release_all(locals, init, d);
        let before = release_all(locals, init, d);
        assert(distinct_names(before)) by {
            assert forall|i: int, j: int| 0 <= i < j < before.len() implies #[trigger] before[i].0 != #[trigger] before[j].0 by {
                assert(before[i].0 == locals[i].0 && before[j].0 == locals[j].0);
            }
        }
        lemma_find_local(before, n);
        assert forall|i: int| 0 <= i < locals.len() implies #[trigger] release_all(locals, names, d)[i] == (locals[i].0,
            if names.contains(locals[i].0) { released_local(locals[i].1, d) } else { locals[i].1 }) by {
            assert(names.contains(locals[i].0) <==> (init.contains(locals[i].0) || n == locals[i].0)) by {
                if names.contains(locals[i].0) {
                    let k = choose|k: int| 0 <= k < names.len() && names[k] == locals[i].0;
                    if k < names.len() - 1 {
                        assert(init[k] == names[k]);
                    }
                }
                if init.contains(locals[i].0) {
                    let k = choose|k: int| 0 <= k < init.len() && init[k] == locals[i].0;
                    assert(names[k] == init[k]);
                }
                if n == locals[i].0 {
                    assert(names[names.len() - 1] == n);
                }
            }
            if before[i].0 == n {
                lemma_find_unique(before, n, i);
                lemma_released_local(locals[i].1, d);
            }
        }
    }
}

/// Removing a list of names keeps the names distinct, drops every listed
/// name, and leaves the other entries as they were.
proof fn lemma_remove_all(locals: Seq<(Seq<char>, LocalModel)>, names: Seq<Seq<char>>)
    requires
        distinct_names(locals),
    ensures
        distinct_names(remove_all(locals, names)),
        forall|k: int| 0 <= k < names.len() ==> local_of(remove_all(locals, names), #[trigger] names[k]) is None,
        forall|n: Seq<char>| !names.contains(n) ==> #[trigger] local_of(remove_all(locals, names), n) == local_of(locals, n),
        forall|i: int| 0 <= i < remove_all(locals, names).len() ==> locals.contains(#[trigger] remove_all(locals, names)[i]),
    decreases names.len(),
{
    if names.len() > 0 {
        let init = names.drop_last();
        lemma_remove_all(locals, init);
        let before = remove_all(locals, init);
        lemma_remove_local(before, names.last());
        let r = remove_all(locals, names);
        assert forall|k: int| 0 <= k < names.len() implies local_of(r, #[trigger] names[k]) is None by {
            if k < names.len() - 1 {
                assert(init[k] == names[k]);
                if names[k] != names.last() {
                    assert(local_of(r, names[k]) == local_of(before, names[k]));
                }
            }
        }
        assert forall|n: Seq<char>| !names.contains(n) implies #[trigger] local_of(r, n) == local_of(locals, n) by {
            assert(names[names.len() - 1] == names.last());
            if init.contains(n) {
                let k = choose|k: int| 0 <= k < init.len() && init[k] == n;
                assert(names[k] == init[k]);
            }
        }
        assert forall|i: int| 0 <= i < r.len() implies locals.contains(#[trigger] r[i]) by {
            assert(before.contains(r[i]));
            let j = choose|j: int| 0 <= j < before.len() && before[j] == r[i];
            assert(locals.contains(before[j]));
        }
    }
}

/// Opening a scope keeps the invariant.
pub proof fn lemma_push_scope_wf(m: CheckerModel)
    requires
        model_wf(m),
        depth(m) < usize::MAX,
    ensures
        model_wf(push_scope_model(m)),
{
    let m2 = push_scope_model(m);
    assert forall|i: int| 0 <= i < m2.locals.len() implies local_wf(m2, #[trigger] m2.locals[i].0, m2.locals[i].1) by {
        let l = m2.locals[i].1;
        assert(local_wf(m, m.locals[i].0, l));
        assert forall|k: int| 0 <= k < l.records.len() implies 1 <= #[trigger] l.records[k].scope_depth <= depth(m2)
            && m2.scope_borrows[l.records[k].scope_depth - 1].contains(m2.locals[i].0) by {
            assert(m2.scope_borrows[l.records[k].scope_depth - 1] == m.scope_borrows[l.records[k].scope_depth - 1]);
        }
    }
}

/// A state whose locals are old entries or entries without borrows, with
/// the same borrow lists and depth, keeps the invariant.
proof fn lemma_wf_frame(m: CheckerModel, m2: CheckerModel)
    requires
        model_wf(m),
        distinct_names(m2.locals),
        m2.scope_borrows == m.scope_borrows,
        m2.scopes.len() == m.scopes.len(),
        m2.made >= m.made,
        forall|i: int| 0 <= i < m2.locals.len() ==> m.locals.contains(#[trigger] m2.locals[i]) || (
            m2.locals[i].1.records.len() == 0 && m2.locals[i].1.imm_borrows == 0 && !m2.locals[i].1.mut_borrow),
    ensures
        model_wf(m2),
{
    assert forall|i: int| 0 <= i < m2.locals.len() implies local_wf(m2, #[trigger] m2.locals[i].0, m2.locals[i].1) by {
        if m.locals.contains(m2.locals[i]) {
            let j = choose|j: int| 0 <= j < m.locals.len() && m.locals[j] == m2.locals[i];
            assert(local_wf(m, m.locals[j].0, m.locals[j].1));
        } else {
            assert(m2.locals[i].1.records =~= Seq::<BorrowRecord>::empty());
        }
    }
}

/// Same as `lemma_wf_frame`, for one entry replaced by a copy that differs
/// in its move state alone.
proof fn lemma_wf_set_moved(m: CheckerModel, name: Seq<char>, l: LocalModel, moved: Option<Span>)
    requires
        model_wf(m),
        lookup(m, name) == Some(l),
    ensures
        model_wf(CheckerModel { locals: set_local(m.locals, name, LocalModel { moved, ..l }), ..m }),
{
    let m2 = CheckerModel { locals: set_local(m.locals, name, LocalModel { moved, ..l }), ..m };
    lemma_set_local(m.locals, name, LocalModel { moved, ..l });
    lemma_find_local(m.locals, name);
    let k = find_local(m.locals, name)->0;
    assert forall|i: int| 0 <= i < m2.locals.len() implies local_wf(m2, #[trigger] m2.locals[i].0, m2.locals[i].1) by {
        if m2.locals[i].0 == name {
            lemma_local_of(m2.locals, name);
            assert(m2.locals[i].1 == LocalModel { moved, ..l });
            assert(local_wf(m, m.locals[k].0, m.locals[k].1));
        } else {
            assert(local_wf(m, m.locals[i].0, m.locals[i].1));
        }
    }
}

/// Defining a local keeps the invariant.
pub proof fn lemma_define_local_wf(
    m: CheckerModel,
    name: Seq<char>,
    ty: TypeShape,
    mutable: bool,
    span: Span,
    ref_value: Option<RefModel>,
)
    requires
        model_wf(m),
    ensures
        model_wf(define_local_model(m, name, ty, mutable, span, ref_value)),
{
    let m2 = define_local_model(m, name, ty, mutable, span, ref_value);
    lemma_set_local(m.locals, name, fresh_local(ty, mutable, depth(m), ref_value));
    assert forall|i: int| 0 <= i < m2.locals.len() implies m.locals.contains(#[trigger] m2.locals[i]) || (
        m2.locals[i].1.records.len() == 0 && m2.locals[i].1.imm_borrows == 0 && !m2.locals[i].1.mut_borrow) by {
        if m2.locals[i].0 == name {
            lemma_local_of(m2.locals, name);
        } else {
            assert(m.locals[i] == m2.locals[i]);
        }
    }
    lemma_wf_frame(m, m2);
}

/// Defining a parameter keeps the invariant.
pub proof fn lemma_define_param_wf(m: CheckerModel, name: Seq<char>, ty: TypeShape, ref_value: Option<RefModel>)
    requires
        model_wf(m),
    ensures
        model_wf(define_param_model(m, name, ty, ref_value)),
{
    let m2 = define_param_model(m, name, ty, ref_value);
    lemma_set_local(m.locals, name, fresh_local(ty, true, depth(m), ref_value));
    assert forall|i: int| 0 <= i < m2.locals.len() implies m.locals.contains(#[trigger] m2.locals[i]) || (
        m2.locals[i].1.records.len() == 0 && m2.locals[i].1.imm_borrows == 0 && !m2.locals[i].1.mut_borrow) by {
        if m2.locals[i].0 == name {
            lemma_local_of(m2.locals, name);
        } else {
            assert(m.locals[i] == m2.locals[i]);
        }
    }
    lemma_wf_frame(m, m2);
}

/// Assigning keeps the invariant.
pub proof fn lemma_assign_wf(m: CheckerModel, name: Seq<char>, span: Span)
    requires
        model_wf(m),
    ensures
        model_wf(assign_model(m, name, span)),
{
    if let Some(l) = lookup(m, name) {
        if l.mutable && !(l.imm_borrows > 0 || l.mut_borrow) {
            lemma_wf_set_moved(m, name, l, None);
        }
    }
}

/// Using a local keeps the invariant.
pub proof fn lemma_use_wf(m: CheckerModel, name: Seq<char>, span: Span, moving: bool)
    requires
        model_wf(m),
    ensures
        model_wf(use_model(m, name, span, moving)),
{
    if let Some(l) = lookup(m, name) {
        if l.moved is None && moving && !spec_is_copy(m.kinds, l.ty) && !(l.imm_borrows > 0 || l.mut_borrow) {
            lemma_wf_set_moved(m, name, l, Some(span));
        }
    }
}

/// A borrow, granted or refused, keeps the invariant while a scope is open.
pub proof fn lemma_borrow_wf(m: CheckerModel, name: Seq<char>, mutable: bool, span: Span)
    requires
        model_wf(m),
        depth(m) >= 1,
    ensures
        model_wf(borrow_model(m, name, mutable, span)),
{
    if borrow_refusal(m, name, mutable) is None {
        lemma_add_borrow_wf(m, name, mutable, span);
    }
}

/// Recording a borrow that the rules allow keeps the invariant.
pub proof fn lemma_add_borrow_wf(m: CheckerModel, name: Seq<char>, mutable: bool, span: Span)
    requires
        model_wf(m),
        depth(m) >= 1,
        lookup(m, name) matches Some(l) ==> (if mutable {
            l.imm_borrows == 0 && !l.mut_borrow
        } else {
            !l.mut_borrow
        }),
    ensures
        model_wf(add_borrow_model(m, name, mutable, span)),
{
    let m2 = add_borrow_model(m, name, mutable, span);
    let d = depth(m);
    assert(m2.scope_borrows.len() == m.scope_borrows.len());
    assert(m2.scope_borrows.last().contains(name)) by {
        if m.scope_borrows.last().contains(name) {
            assert(m2.scope_borrows == m.scope_borrows);
        } else {
            assert(m2.scope_borrows.last() == m.scope_borrows.last().push(name));
            assert(m2.scope_borrows.last()[m.scope_borrows.last().len() as int] == name);
        }
    }
    assert forall|k: int, n: Seq<char>| 0 <= k < m.scope_borrows.len() && #[trigger] m.scope_borrows[k].contains(n)
        implies m2.scope_borrows[k].contains(n) by {
        if k == m.scope_borrows.len() - 1 && !m.scope_borrows.last().contains(name) {
            let j = choose|j: int| 0 <= j < m.scope_borrows[k].len() && m.scope_borrows[k][j] == n;
            assert(m2.scope_borrows[k][j] == n);
        }
    }
    match lookup(m, name) {
        None => {
            assert forall|i: int| 0 <= i < m2.locals.len() implies local_wf(m2, #[trigger] m2.locals[i].0, m2.locals[i].1) by {
                let l = m.locals[i].1;
                assert(local_wf(m, m.locals[i].0, l));
                assert forall|k: int| 0 <= k < l.records.len() implies 1 <= #[trigger] l.records[k].scope_depth <= depth(m2)
                    && m2.scope_borrows[l.records[k].scope_depth - 1].contains(m2.locals[i].0) by {
                    assert(m.scope_borrows[l.records[k].scope_depth - 1].contains(m.locals[i].0));
                }
            }
        },
        Some(l) => {
            let nl = borrowed_local(l, mutable, d, span);
            lemma_set_local(m.locals, name, nl);
            lemma_find_local(m.locals, name);
            let kk = find_local(m.locals, name)->0;
            assert(local_wf(m, m.locals[kk].0, m.locals[kk].1));
            let rec = BorrowRecord { mutable, scope_depth: d as usize, span };
            lemma_counts_push(l.records, rec, 0);
            assert forall|i: int| 0 <= i < m2.locals.len() implies local_wf(m2, #[trigger] m2.locals[i].0, m2.locals[i].1) by {
                if m2.locals[i].0 == name {
                    lemma_local_of(m2.locals, name);
                    assert(m2.locals[i].1 == nl);
                    assert forall|k: int| 0 <= k < nl.records.len() implies 1 <= #[trigger] nl.records[k].scope_depth <= depth(m2)
                        && m2.scope_borrows[nl.records[k].scope_depth - 1].contains(name) by {
                        if k < l.records.len() {
                            assert(nl.records[k] == l.records[k]);
                            assert(m.scope_borrows[l.records[k].scope_depth - 1].contains(name));
                        } else {
                            assert(nl.records[k] == rec);
                        }
                    }
                } else {
                    let o = m2.locals[i];
                    assert(m.locals[i] == o);
                    assert(local_wf(m, o.0, o.1));
                    assert forall|k: int| 0 <= k < o.1.records.len() implies 1 <= #[trigger] o.1.records[k].scope_depth <= depth(m2)
                        && m2.scope_borrows[o.1.records[k].scope_depth - 1].contains(o.0) by {
                        assert(m.scope_borrows[o.1.records[k].scope_depth - 1].contains(o.0));
                    }
                }
            }
        },
    }
}

/// Closing a scope keeps the invariant.
pub proof fn lemma_pop_scope_wf(m: CheckerModel)
    requires
        model_wf(m),
    ensures
        model_wf(pop_scope_model(m)),
        depth(m) >= 1 ==> depth(pop_scope_model(m)) == depth(m) - 1,
        depth(m) >= 1 ==> forall|n: Seq<char>, k: int| lookup(pop_scope_model(m), n) is Some && 0 <= k
            < lookup(pop_scope_model(m), n).unwrap().records.len() ==> #[trigger] lookup(pop_scope_model(m), n).unwrap().records[k].scope_depth
            < depth(m),
{
    if depth(m) >= 1 {
        let d = depth(m) as int;
        let names = m.scope_borrows.last();
        assert forall|i: int| 0 <= i < m.locals.len() implies (#[trigger] m.locals[i]).1.imm_borrows == imm_count(m.locals[i].1.records)
            && m.locals[i].1.mut_borrow == (mut_count(m.locals[i].1.records) > 0)
            && mut_count(m.locals[i].1.records) <= 1
            && (m.locals[i].1.mut_borrow ==> m.locals[i].1.imm_borrows == 0) by {
            assert(local_wf(m, m.locals[i].0, m.locals[i].1));
        }
        lemma_release_all(m.locals, names, d);
        let released = release_all(m.locals, names, d);
        assert(distinct_names(released)) by {
            assert forall|i: int, j: int| 0 <= i < j < released.len() implies #[trigger] released[i].0 != #[trigger] released[j].0 by {
                assert(released[i].0 == m.locals[i].0 && released[j].0 == m.locals[j].0);
            }
        }
        lemma_remove_all(released, m.scopes.last());
        let m2 = pop_scope_model(m);
        assert forall|i: int| 0 <= i < released.len() implies local_wf(m2, #[trigger] released[i].0, released[i].1) by {
            let n = m.locals[i].0;
            let l = m.locals[i].1;
            assert(local_wf(m, n, l));
            assert(m.scope_borrows[d - 1] == names);
            if names.contains(n) {
                lemma_released_local(l, d);
                let r = released_local(l, d);
                assert(released[i].1 == r);
                assert forall|k: int| 0 <= k < r.records.len() implies 1 <= #[trigger] r.records[k].scope_depth <= depth(m2)
                    && m2.scope_borrows[r.records[k].scope_depth - 1].contains(n) by {
                    assert(l.records.contains(r.records[k]));
                    let j = choose|j: int| 0 <= j < l.records.len() && l.records[j] == r.records[k];
                    assert(m.scope_borrows[l.records[j].scope_depth - 1].contains(n));
                    assert(m2.scope_borrows[r.records[k].scope_depth - 1] == m.scope_borrows[r.records[k].scope_depth - 1]);
                }
            } else {
                assert(released[i].1 == l);
                assert forall|k: int| 0 <= k < l.records.len() implies 1 <= #[trigger] l.records[k].scope_depth <= depth(m2)
                    && m2.scope_borrows[l.records[k].scope_depth - 1].contains(n) by {
                    assert(m.scope_borrows[l.records[k].scope_depth - 1].contains(n));
                    if l.records[k].scope_depth == d {
                        assert(false);
                    }
                    assert(m2.scope_borrows[l.records[k].scope_depth - 1] == m.scope_borrows[l.records[k].scope_depth - 1]);
                }
            }
        }
        assert forall|i: int| 0 <= i < m2.locals.len() implies local_wf(m2, #[trigger] m2.locals[i].0, m2.locals[i].1) by {
            assert(released.contains(m2.locals[i]));
            let j = choose|j: int| 0 <= j < released.len() && released[j] == m2.locals[i];
            assert(local_wf(m2, released[j].0, released[j].1));
        }
        assert forall|n: Seq<char>, k: int| lookup(m2, n) is Some && 0 <= k < lookup(m2, n).unwrap().records.len()
            implies #[trigger] lookup(m2, n).unwrap().records[k].scope_depth < d by {
            lemma_find_local(m2.locals, n);
            let i = find_local(m2.locals, n)->0;
            assert(local_wf(m2, m2.locals[i].0, m2.locals[i].1));
        }
    }
}

/// Opening a scope and closing it again leaves the checker as it was.
pub proof fn law_push_pop_restores(m: CheckerModel)
    requires
        model_wf(m),
        depth(m) < usize::MAX,
    ensures
        pop_scope_model(push_scope_model(m)) == m,
{
    let p = push_scope_model(m);
    assert(p.scope_borrows.last() =~= Seq::<Seq<char>>::empty());
    assert(p.scopes.last() =~= Seq::<Seq<char>>::empty());
    assert(p.scopes.drop_last() =~= m.scopes);
    assert(p.scope_borrows.drop_last() =~= m.scope_borrows);
}

/// Closing a scope releases every borrow taken in it: what is left was
/// taken in an outer scope.
pub proof fn law_pop_scope_releases_borrows(m: CheckerModel, n: Seq<char>, k: int)
    requires
        model_wf(m),
        depth(m) >= 1,
        lookup(pop_scope_model(m), n) is Some,
        0 <= k < lookup(pop_scope_model(m), n).unwrap().records.len(),
    ensures
        lookup(pop_scope_model(m), n).unwrap().records[k].scope_depth < depth(m),
{
    lemma_pop_scope_wf(m);
}

/// Closing a scope drops every local defined in it.
pub proof fn law_pop_scope_drops_locals(m: CheckerModel, k: int)
    requires
        model_wf(m),
        depth(m) >= 1,
        0 <= k < m.scopes.last().len(),
    ensures
        lookup(pop_scope_model(m), m.scopes.last()[k]) is None,
{
    let d = depth(m) as int;
    assert forall|i: int| 0 <= i < m.locals.len() implies (#[trigger] m.locals[i]).1.imm_borrows == imm_count(m.locals[i].1.records)
        && m.locals[i].1.mut_borrow == (mut_count(m.locals[i].1.records) > 0)
        && mut_count(m.locals[i].1.records) <= 1
        && (m.locals[i].1.mut_borrow ==> m.locals[i].1.imm_borrows == 0) by {
        assert(local_wf(m, m.locals[i].0, m.locals[i].1));
    }
    lemma_release_all(m.locals, m.scope_borrows.last(), d);
    let released = release_all(m.locals, m.scope_borrows.last(), d);
    assert(distinct_names(released)) by {
        assert forall|i: int, j: int| 0 <= i < j < released.len() implies #[trigger] released[i].0 != #[trigger] released[j].0 by {
            assert(released[i].0 == m.locals[i].0 && released[j].0 == m.locals[j].0);
        }
    }
    lemma_remove_all(released, m.scopes.last());
}

/// A refused borrow changes nothing but adds its diagnostic.
pub proof fn law_refused_borrow(m: CheckerModel, name: Seq<char>, mutable: bool, span: Span)
    requires
        borrow_refusal(m, name, mutable) is Some,
    ensures
        borrow_model(m, name, mutable, span) == (CheckerModel {
            diags: m.diags.push(
                diag(
                    borrow_refusal(m, name, mutable).unwrap().0,
                    borrow_refusal(m, name, mutable).unwrap().1,
                    span,
                ),
            ),
            ..m
        }),
{
}

/// A mutable borrow is exclusive: once granted, every further borrow of the
/// same local is refused (until the scope that took it closes).
pub proof fn law_mutable_borrow_exclusive(m: CheckerModel, name: Seq<char>, span: Span, again: bool)
    requires
        model_wf(m),
        depth(m) >= 1,
        borrow_refusal(m, name, true) is None,
    ensures
        borrow_refusal(borrow_model(m, name, true, span), name, again) is Some,
{
    let l = lookup(m, name).unwrap();
    lemma_set_local(m.locals, name, borrowed_local(l, true, depth(m), span));
}

/// While a local is borrowed shared, a mutable borrow of it is refused, and
/// shared borrows are granted as long as it is not borrowed mutably.
pub proof fn law_shared_borrows(m: CheckerModel, name: Seq<char>, span: Span)
    requires
        model_wf(m),
        lookup(m, name) is Some,
        !lookup(m, name).unwrap().mut_borrow,
    ensures
        borrow_refusal(m, name, false) is None,
        borrow_refusal(borrow_model(m, name, false, span), name, false) is None,
        borrow_refusal(borrow_model(m, name, false, span), name, true) is Some,
{
    let l = lookup(m, name).unwrap();
    lemma_set_local(m.locals, name, borrowed_local(l, false, depth(m), span));
}

/// Moving a value that is not copied makes the next use report the move,
/// pointing at where it happened.
pub proof fn law_use_after_move(m: CheckerModel, name: Seq<char>, at: Span, later: Span, moving: bool)
    requires
        model_wf(m),
        lookup(m, name) is Some,
        lookup(m, name).unwrap().moved is None,
        !spec_is_copy(m.kinds, lookup(m, name).unwrap().ty),
        lookup(m, name).unwrap().imm_borrows == 0,
        !lookup(m, name).unwrap().mut_borrow,
    ensures
        use_model(use_model(m, name, at, true), name, later, moving).diags == m.diags.push(
            diag(MemoryErrorCode::UseAfterMove, quoted("use of `"@, name, "` after move"@), at),
        ),
{
    let l = lookup(m, name).unwrap();
    lemma_set_local(m.locals, name, LocalModel { moved: Some(at), ..l });
}

/// Values that are copied are never moved by a use.
pub proof fn law_copy_use_changes_nothing(m: CheckerModel, name: Seq<char>, span: Span)
    requires
        lookup(m, name) is Some,
        lookup(m, name).unwrap().moved is None,
        spec_is_copy(m.kinds, lookup(m, name).unwrap().ty),
    ensures
        use_model(m, name, span, true) == m,
{
}

/// Assigning to a mutable local that is not borrowed makes it usable again
/// after a move.
pub proof fn law_assign_revives(m: CheckerModel, name: Seq<char>, span: Span, later: Span)
    requires
        model_wf(m),
        lookup(m, name) is Some,
        lookup(m, name).unwrap().mutable,
        lookup(m, name).unwrap().imm_borrows == 0,
        !lookup(m, name).unwrap().mut_borrow,
    ensures
        lookup(assign_model(m, name, span), name).unwrap().moved is None,
        assign_model(m, name, span).diags == m.diags,
        use_model(assign_model(m, name, span), name, later, false) == assign_model(m, name, span),
{
    let l = lookup(m, name).unwrap();
    lemma_set_local(m.locals, name, LocalModel { moved: None, ..l });
}

/// A released local stays consistent.
pub proof fn lemma_released_local_wf(m: CheckerModel, n: Seq<char>, l: LocalModel, d: int)
    requires
        local_wf(m, n, l),
    ensures
        released_local(l, d).imm_borrows == imm_count(released_local(l, d).records),
        released_local(l, d).imm_borrows <= m.made,
        released_local(released_local(l, d), d) == released_local(l, d),
{
    lemma_released_local(l, d);
}

} // verus!
