use vstd::prelude::*;

use crate::span::Span;

verus! {

/// One live borrow of a local: its kind, the scope depth that took it and
/// where it was taken.
#[derive(Clone, Copy, Debug, PartialEq, Eq, Structural)]
pub struct BorrowRecord {
    pub mutable: bool,
    pub scope_depth: usize,
    pub span: Span,
}

/// The borrows a local currently has.
#[derive(Debug)]
pub struct BorrowState {
    pub imm_borrows: u32,
    pub mut_borrow: bool,
    pub borrow_scopes: Vec<BorrowRecord>,
}

/// A reference value: the local it points into, that local's scope depth,
/// whether it is mutable and whether it came in through a parameter.
#[derive(Debug)]
pub struct RefValue {
    pub origin: String,
    pub origin_depth: usize,
    pub mutable: bool,
    pub from_param: bool,
}

/// Number of shared borrows among `records`.
pub open spec fn imm_count(records: Seq<BorrowRecord>) -> nat
    decreases records.len(),
{
    if records.len() == 0 {
        0
    } else {
        imm_count(records.drop_last()) + if records.last().mutable {
            0nat
        } else {
            1nat
        }
    }
}

/// Number of mutable borrows among `records`.
pub open spec fn mut_count(records: Seq<BorrowRecord>) -> nat
    decreases records.len(),
{
    if records.len() == 0 {
        0
    } else {
        mut_count(records.drop_last()) + if records.last().mutable {
            1nat
        } else {
            0nat
        }
    }
}

/// The records not taken at scope depth `depth`, in their order.
pub open spec fn records_kept(records: Seq<BorrowRecord>, depth: int) -> Seq<BorrowRecord>
    decreases records.len(),
{
    if records.len() == 0 {
        records
    } else if records.last().scope_depth == depth {
        records_kept(records.drop_last(), depth)
    } else {
        records_kept(records.drop_last(), depth).push(records.last())
    }
}

/// Number of shared borrows taken at scope depth `depth`.
pub open spec fn imm_count_at(records: Seq<BorrowRecord>, depth: int) -> nat
    decreases records.len(),
{
    if records.len() == 0 {
        0
    } else {
        imm_count_at(records.drop_last(), depth) + if records.last().scope_depth == depth
            && !records.last().mutable {
            1nat
        } else {
            0nat
        }
    }
}

/// Whether a mutable borrow was taken at scope depth `depth`.
pub open spec fn has_mut_at(records: Seq<BorrowRecord>, depth: int) -> bool {
    exists|i: int|
        0 <= i < records.len() && #[trigger] records[i].scope_depth == depth && records[i].mutable
}

/// Counting over a prefix grows by the last record.
pub proof fn lemma_counts_push(records: Seq<BorrowRecord>, r: BorrowRecord, depth: int)
    ensures
        imm_count(records.push(r)) == imm_count(records) + if r.mutable {
            0nat
        } else {
            1nat
        },
        mut_count(records.push(r)) == mut_count(records) + if r.mutable {
            1nat
        } else {
            0nat
        },
        imm_count_at(records.push(r), depth) == imm_count_at(records, depth) + if r.scope_depth
            == depth && !r.mutable {
            1nat
        } else {
            0nat
        },
        records_kept(records.push(r), depth) == if r.scope_depth == depth {
            records_kept(records, depth)
        } else {
            records_kept(records, depth).push(r)
        },
{
    assert(records.push(r).drop_last() =~= records);
}

/// Dropping the records of one depth removes exactly the borrows counted
/// there, and keeps every other record.
pub proof fn lemma_records_kept(records: Seq<BorrowRecord>, depth: int)
    ensures
        imm_count(records_kept(records, depth)) + imm_count_at(records, depth) == imm_count(
            records,
        ),
        mut_count(records_kept(records, depth)) <= mut_count(records),
        !has_mut_at(records, depth) ==> mut_count(records_kept(records, depth)) == mut_count(
            records,
        ),
        has_mut_at(records, depth) ==> mut_count(records_kept(records, depth)) < mut_count(
            records,
        ),
        forall|i: int|
            0 <= i < records_kept(records, depth).len() ==> #[trigger] records_kept(
                records,
                depth,
            )[i].scope_depth != depth,
        forall|i: int|
            0 <= i < records_kept(records, depth).len() ==> records.contains(
                #[trigger] records_kept(records, depth)[i],
            ),
        (forall|i: int| 0 <= i < records.len() ==> #[trigger] records[i].scope_depth != depth)
            ==> records_kept(records, depth) == records,
    decreases records.len(),
{
    if records.len() > 0 {
        let init = records.drop_last();
        let last = records.last();
        lemma_records_kept(init, depth);
        lemma_counts_push(init, last, depth);
        lemma_counts_push(records_kept(init, depth), last, depth);
        assert(init.push(last) =~= records);
        if has_mut_at(records, depth) {
            let i = choose|i: int|
                0 <= i < records.len() && #[trigger] records[i].scope_depth == depth
                    && records[i].mutable;
            if i < records.len() - 1 {
                assert(init[i] == records[i]);
                assert(has_mut_at(init, depth));
            }
        }
        if !has_mut_at(records, depth) {
            assert forall|i: int| 0 <= i < init.len() && #[trigger] init[i].scope_depth == depth
                implies !init[i].mutable by {
                assert(init[i] == records[i]);
            }
            assert(!(last.scope_depth == depth && last.mutable)) by {
                assert(records[records.len() - 1] == last);
            }
        }
        let kept = records_kept(records, depth);
        let kept_init = records_kept(init, depth);
        assert forall|i: int| 0 <= i < kept.len() implies records.contains(#[trigger] kept[i]) by {
            if i < kept_init.len() {
                assert(kept[i] == kept_init[i]);
                assert(init.contains(kept_init[i]));
                let j = choose|j: int| 0 <= j < init.len() && init[j] == kept_init[i];
                assert(records[j] == init[j]);
            } else {
                assert(records[records.len() - 1] == last);
            }
        }
        if forall|i: int| 0 <= i < records.len() ==> #[trigger] records[i].scope_depth != depth {
            assert forall|i: int| 0 <= i < init.len() implies #[trigger] init[i].scope_depth
                != depth by {
                assert(init[i] == records[i]);
            }
            assert(records[records.len() - 1] == last);
        }
    }
}

/// Counting over a prefix counts no more than over the whole.
pub proof fn lemma_count_at_prefix(records: Seq<BorrowRecord>, depth: int, j: int)
    requires
        0 <= j <= records.len(),
    ensures
        imm_count_at(records.take(j), depth) <= imm_count_at(records, depth),
        imm_count_at(records, depth) <= imm_count(records),
    decreases records.len(),
{
    lemma_records_kept(records, depth);
    if j < records.len() {
        assert(records.take(j) =~= records.drop_last().take(j));
        lemma_count_at_prefix(records.drop_last(), depth, j);
    } else {
        assert(records.take(j) =~= records);
    }
}

/// A mutable borrow at `depth` among `records` and one more.
pub proof fn lemma_has_mut_at_push(records: Seq<BorrowRecord>, r: BorrowRecord, depth: int)
    ensures
        has_mut_at(records.push(r), depth) == (has_mut_at(records, depth) || (r.scope_depth == depth
            && r.mutable)),
{
    let s = records.push(r);
    if has_mut_at(records, depth) {
        let i = choose|i: int|
            0 <= i < records.len() && #[trigger] records[i].scope_depth == depth && records[i].mutable;
        assert(s[i] == records[i]);
    }
    if r.scope_depth == depth && r.mutable {
        assert(s[records.len() as int] == r);
    }
    if has_mut_at(s, depth) {
        let i = choose|i: int| 0 <= i < s.len() && #[trigger] s[i].scope_depth == depth && s[i].mutable;
        if i < records.len() {
            assert(s[i] == records[i]);
        }
    }
}

impl BorrowState {
    /// The counters agree with the records, there is at most one mutable
    /// borrow, and never a mutable borrow next to shared ones.
    pub open spec fn wf(self) -> bool {
        &&& self.imm_borrows == imm_count(self.borrow_scopes@)
        &&& self.mut_borrow == (mut_count(self.borrow_scopes@) > 0)
        &&& mut_count(self.borrow_scopes@) <= 1
        &&& (self.mut_borrow ==> self.imm_borrows == 0)
    }

    /// No borrow at all.
    pub fn new() -> (r: Self)
        ensures
            r.imm_borrows == 0,
            !r.mut_borrow,
            r.borrow_scopes@ == Seq::<BorrowRecord>::empty(),
            r.wf(),
    {
        BorrowState { imm_borrows: 0, mut_borrow: false, borrow_scopes: Vec::new() }
    }

    pub open spec fn spec_is_borrowed(self) -> bool {
        self.imm_borrows > 0 || self.mut_borrow
    }

    /// Whether any borrow is live.
    pub fn is_borrowed(&self) -> (r: bool)
        ensures
            r == self.spec_is_borrowed(),
    {
        self.imm_borrows > 0 || self.mut_borrow
    }
}

impl Default for BorrowState {
    fn default() -> (r: Self)
        ensures
            r.imm_borrows == 0,
            !r.mut_borrow,
            r.borrow_scopes@ == Seq::<BorrowRecord>::empty(),
    {
        BorrowState::new()
    }
}

impl RefValue {
    pub fn duplicate(&self) -> (r: RefValue)
        ensures
            r.origin@ == self.origin@,
            r.origin_depth == self.origin_depth,
            r.mutable == self.mutable,
            r.from_param == self.from_param,
    {
        RefValue {
            origin: self.origin.clone(),
            origin_depth: self.origin_depth,
            mutable: self.mutable,
            from_param: self.from_param,
        }
    }
}

} // verus!
