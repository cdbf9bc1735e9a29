//! The predicate classifier: which branches of a called function took only one
//! of their two outcomes.

use vstd::prelude::*;
use crate::error::GetCovError;
use crate::report::{BranchRecord, FunctionRecord};

verus! {

/// A branch that took only one outcome, with its span and both counts.
#[derive(Debug, Clone, PartialEq, Eq)]
pub struct PartiallyCoveredPredicate {
    pub file_path: String,
    pub start_line: u64,
    pub start_column: u64,
    pub end_line: u64,
    pub end_column: u64,
    pub true_count: u64,
    pub false_count: u64,
}

/// How a branch behaved.
#[derive(Debug, Clone, Copy, PartialEq, Eq, Structural)]
pub enum PredicateStatus {
    NeverExecuted,
    AlwaysFalse,
    AlwaysTrue,
}

pub open spec fn status_of(true_count: u64, false_count: u64) -> PredicateStatus {
    if true_count == 0 && false_count == 0 {
        PredicateStatus::NeverExecuted
    } else if true_count == 0 {
        PredicateStatus::AlwaysFalse
    } else {
        PredicateStatus::AlwaysTrue
    }
}

impl PredicateStatus {
    /// The status as the text report words it.
    pub fn label(&self) -> (r: &'static str)
        ensures
            *self == PredicateStatus::NeverExecuted ==> r@ == "never executed"@,
            *self == PredicateStatus::AlwaysFalse ==> r@ == "always false"@,
            *self == PredicateStatus::AlwaysTrue ==> r@ == "always true"@,
    {
        match self {
            PredicateStatus::NeverExecuted => "never executed",
            PredicateStatus::AlwaysFalse => "always false",
            PredicateStatus::AlwaysTrue => "always true",
        }
    }
}

impl PartiallyCoveredPredicate {
    pub fn status(&self) -> (r: PredicateStatus)
        ensures
            r == status_of(self.true_count, self.false_count),
    {
        if self.true_count == 0 && self.false_count == 0 {
            PredicateStatus::NeverExecuted
        } else if self.true_count == 0 {
            PredicateStatus::AlwaysFalse
        } else {
            PredicateStatus::AlwaysTrue
        }
    }
}

/// Exactly one of the branch's two outcomes was never taken.
pub open spec fn is_partial(b: BranchRecord) -> bool {
    (b.execution_count == 0 && b.false_execution_count > 0) || (b.execution_count > 0
        && b.false_execution_count == 0)
}

/// The branch's file index lies in the file list.
pub open spec fn attributable(b: BranchRecord, files: Seq<String>) -> bool {
    b.file_id < files.len()
}

pub open spec fn predicate_of(b: BranchRecord, files: Seq<String>) -> PartiallyCoveredPredicate {
    PartiallyCoveredPredicate {
        file_path: files[b.file_id as int],
        start_line: b.line_start,
        start_column: b.column_start,
        end_line: b.line_end,
        end_column: b.column_end,
        true_count: b.execution_count,
        false_count: b.false_execution_count,
    }
}

/// The predicates of the partially covered branches of `bs`, in order.
pub open spec fn partial_predicates(bs: Seq<BranchRecord>, files: Seq<String>) -> Seq<
    PartiallyCoveredPredicate,
>
    decreases bs.len(),
{
    if bs.len() == 0 {
        Seq::empty()
    } else {
        let rest = partial_predicates(bs.drop_last(), files);
        if is_partial(bs.last()) {
            rest.push(predicate_of(bs.last(), files))
        } else {
            rest
        }
    }
}

/// Every partially covered branch of `bs` names a file of `files`.
pub open spec fn partials_attributable(bs: Seq<BranchRecord>, files: Seq<String>) -> bool {
    forall|i: int| 0 <= i < bs.len() && is_partial(#[trigger] bs[i]) ==> attributable(bs[i], files)
}

/// The partially covered predicates of a function. An uncalled function gives
/// `Ok(None)`; a called one gives its partially covered branches in order
/// (possibly none), or an error when one of them names no file of the function.
pub fn get_partially_covered_predicates(function: &FunctionRecord) -> (r: Result<
    Option<Vec<PartiallyCoveredPredicate>>,
    GetCovError,
>)
    ensures
        function.count == 0 ==> r matches Ok(None),
        function.count > 0 ==> (r is Ok <==> partials_attributable(
            function.branches@,
            function.filenames@,
        )),
        function.count > 0 && r is Ok ==> (r matches Ok(Some(v)) && v@ == partial_predicates(
            function.branches@,
            function.filenames@,
        )),
        r matches Err(e) ==> (e matches GetCovError::FileIndexOutOfRange(id) && exists|i: int|
            0 <= i < function.branches@.len() && is_partial(#[trigger] function.branches@[i])
                && function.branches@[i].file_id == id && id >= function.filenames@.len()),
{
    if function.count == 0 {
        return Ok(None);
    }
    let bs = &function.branches;
    let files = &function.filenames;
    let mut out: Vec<PartiallyCoveredPredicate> = Vec::new();
    let mut i: usize = 0;
    while i < bs.len()
        invariant
            i <= bs@.len(),
            function.count > 0,
            bs == &function.branches,
            files == &function.filenames,
            out@ == partial_predicates(bs@.subrange(0, i as int), files@),
            partials_attributable(bs@.subrange(0, i as int), files@),
        decreases bs@.len() - i,
    {
        let b = bs[i];
        proof {
            let s1 = bs@.subrange(0, i as int + 1);
            assert(s1.drop_last() =~= bs@.subrange(0, i as int));
            assert(s1.last() == b);
        }
        let partial = (b.execution_count == 0 && b.false_execution_count > 0) || (b.execution_count
            > 0 && b.false_execution_count == 0);
        if partial {
            if b.file_id >= files.len() as u64 {
                assert(is_partial(bs@[i as int]));
                assert(!attributable(bs@[i as int], files@));
                return Err(GetCovError::FileIndexOutOfRange(b.file_id));
            }
            out.push(
                PartiallyCoveredPredicate {
                    file_path: files[b.file_id as usize].clone(),
                    start_line: b.line_start,
                    start_column: b.column_start,
                    end_line: b.line_end,
                    end_column: b.column_end,
                    true_count: b.execution_count,
                    false_count: b.false_execution_count,
                },
            );
        }
        proof {
            let s0 = bs@.subrange(0, i as int);
            let s1 = bs@.subrange(0, i as int + 1);
            assert forall|k: int| 0 <= k < s1.len() && is_partial(#[trigger] s1[k]) implies attributable(
                s1[k],
                files@,
            ) by {
                if k < i {
                    assert(s1[k] == s0[k]);
                }
            }
        }
        i += 1;
    }
    assert(bs@.subrange(0, bs@.len() as int) =~= bs@);
    Ok(Some(out))
}

proof fn lemma_partial_members(bs: Seq<BranchRecord>, files: Seq<String>)
    ensures
        forall|k: int|
            0 <= k < partial_predicates(bs, files).len() ==> ((
            #[trigger] partial_predicates(bs, files)[k]).true_count == 0) != (partial_predicates(
                bs,
                files,
            )[k].false_count == 0),
    decreases bs.len(),
{
    if bs.len() > 0 {
        let d = bs.drop_last();
        lemma_partial_members(d, files);
        let r = partial_predicates(bs, files);
        let rd = partial_predicates(d, files);
        assert forall|k: int| 0 <= k < r.len() implies ((#[trigger] r[k]).true_count == 0) != (
        r[k].false_count == 0) by {
            if k < rd.len() {
                assert(r[k] == rd[k]);
            }
        }
    }
}

/// No reported predicate took both outcomes or neither: each is either always
/// true or always false, never both, so its status is one of those two.
pub proof fn lemma_classifier_exclusive(bs: Seq<BranchRecord>, files: Seq<String>)
    ensures
        forall|k: int|
            0 <= k < partial_predicates(bs, files).len() ==> {
                let p = #[trigger] partial_predicates(bs, files)[k];
                &&& (p.true_count == 0) != (p.false_count == 0)
                &&& !(p.true_count > 0 && p.false_count > 0)
                &&& status_of(p.true_count, p.false_count) != PredicateStatus::NeverExecuted
            },
{
    lemma_partial_members(bs, files);
    assert forall|k: int| 0 <= k < partial_predicates(bs, files).len() implies {
        let p = #[trigger] partial_predicates(bs, files)[k];
        &&& (p.true_count == 0) != (p.false_count == 0)
        &&& !(p.true_count > 0 && p.false_count > 0)
        &&& status_of(p.true_count, p.false_count) != PredicateStatus::NeverExecuted
    } by {
        assert(((partial_predicates(bs, files)[k]).true_count == 0) != (partial_predicates(
            bs,
            files,
        )[k].false_count == 0));
    }
}

} // verus!
