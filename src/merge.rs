//! The region merge engine: per file, sort spans by start and sweep them into
//! a minimal set of non-overlapping spans.

use vstd::prelude::*;
use crate::region::{
    CodeRegion, pos_le, touches, covers, joined, can_merge, is_fully_covered,
    merge_regions_in_place,
};

verus! {

/// The spans of `s` that lie in file `f`, in their order in `s`.
pub open spec fn of_file(s: Seq<CodeRegion>, f: Seq<char>) -> Seq<CodeRegion>
    decreases s.len(),
{
    if s.len() == 0 {
        s
    } else {
        let rest = of_file(s.drop_last(), f);
        if s.last().file_path@ == f {
            rest.push(s.last())
        } else {
            rest
        }
    }
}

/// The distinct files of `s`, in the order in which they first appear.
pub open spec fn files_of(s: Seq<CodeRegion>) -> Seq<Seq<char>>
    decreases s.len(),
{
    if s.len() == 0 {
        Seq::empty()
    } else {
        let fs = files_of(s.drop_last());
        if fs.contains(s.last().file_path@) {
            fs
        } else {
            fs.push(s.last().file_path@)
        }
    }
}

/// Inserts `x` into `s` after every span that starts no later than `x`
/// (one step of a stable insertion sort).
pub open spec fn insert_by_start(s: Seq<CodeRegion>, x: CodeRegion) -> Seq<CodeRegion>
    decreases s.len(),
{
    if s.len() == 0 {
        seq![x]
    } else if pos_le(s.last().start_pos(), x.start_pos()) {
        s.push(x)
    } else {
        insert_by_start(s.drop_last(), x).push(s.last())
    }
}

/// `s` stably sorted by start position.
pub open spec fn sort_by_start(s: Seq<CodeRegion>) -> Seq<CodeRegion>
    decreases s.len(),
{
    if s.len() == 0 {
        s
    } else {
        insert_by_start(sort_by_start(s.drop_last()), s.last())
    }
}

pub open spec fn sorted_by_start(s: Seq<CodeRegion>) -> bool {
    forall|i: int, j: int| 0 <= i < j < s.len() ==> pos_le(s[i].start_pos(), s[j].start_pos())
}

/// One step of the sweep: the finished spans and the accumulator, given the next span.
pub open spec fn sweep_step(st: (Seq<CodeRegion>, CodeRegion), b: CodeRegion) -> (
    Seq<CodeRegion>,
    CodeRegion,
) {
    if covers(st.1, b) {
        st
    } else if touches(st.1, b) {
        (st.0, joined(st.1, b))
    } else {
        (st.0.push(st.1), b)
    }
}

/// The sweep's state after the first `n` spans of `s` (`n >= 1`).
pub open spec fn sweep_upto(s: Seq<CodeRegion>, n: int) -> (Seq<CodeRegion>, CodeRegion)
    decreases n,
{
    if n <= 1 {
        (Seq::empty(), s[0])
    } else {
        sweep_step(sweep_upto(s, n - 1), s[n - 1])
    }
}

/// The result of sweeping `s` in its order.
pub open spec fn sweep(s: Seq<CodeRegion>) -> Seq<CodeRegion> {
    if s.len() == 0 {
        s
    } else {
        let st = sweep_upto(s, s.len() as int);
        st.0.push(st.1)
    }
}

/// The merged spans of one file.
pub open spec fn merged_file(s: Seq<CodeRegion>, f: Seq<char>) -> Seq<CodeRegion> {
    sweep(sort_by_start(of_file(s, f)))
}

/// The merged spans of the files `fs`, one file after another.
pub open spec fn merged_files(s: Seq<CodeRegion>, fs: Seq<Seq<char>>) -> Seq<CodeRegion>
    decreases fs.len(),
{
    if fs.len() == 0 {
        Seq::empty()
    } else {
        merged_files(s, fs.drop_last()) + merged_file(s, fs.last())
    }
}

/// The merge engine's result: each file's merged spans, files in order of first appearance.
pub open spec fn merged(s: Seq<CodeRegion>) -> Seq<CodeRegion> {
    merged_files(s, files_of(s))
}

/// A copy of `r`.
pub fn copy_region(r: &CodeRegion) -> (c: CodeRegion)
    ensures
        c == *r,
{
    CodeRegion {
        file_path: r.file_path.clone(),
        start_line: r.start_line,
        start_column: r.start_column,
        end_line: r.end_line,
        end_column: r.end_column,
    }
}

/// The distinct file paths of `regions`, in order of first appearance.
fn distinct_files(regions: &Vec<CodeRegion>) -> (r: Vec<String>)
    ensures
        r@.len() == files_of(regions@).len(),
        forall|k: int| 0 <= k < r@.len() ==> r@[k]@ == files_of(regions@)[k],
{
    let mut files: Vec<String> = Vec::new();
    let mut i: usize = 0;
    while i < regions.len()
        invariant
            i <= regions@.len(),
            files@.len() == files_of(regions@.subrange(0, i as int)).len(),
            forall|k: int|
                0 <= k < files@.len() ==> files@[k]@ == files_of(regions@.subrange(0, i as int))[k],
        decreases regions@.len() - i,
    {
        let ghost fs = files_of(regions@.subrange(0, i as int));
        let f = &regions[i].file_path;
        let mut found = false;
        let mut k: usize = 0;
        while k < files.len()
            invariant
                k <= files@.len(),
                files@.len() == fs.len(),
                forall|m: int| 0 <= m < files@.len() ==> files@[m]@ == fs[m],
                found <==> exists|m: int| 0 <= m < k && fs[m] == f@,
            decreases files@.len() - k,
        {
            let same = files[k] == *f;
            proof {
                assert(files@[k as int]@ == fs[k as int]);
                if same {
                    assert(fs[k as int] == f@);
                }
                if exists|m: int| 0 <= m < k + 1 && fs[m] == f@ {
                    let m = choose|m: int| 0 <= m < k + 1 && fs[m] == f@;
                    if m < k {
                        assert(exists|m2: int| 0 <= m2 < k && fs[m2] == f@);
                    }
                }
            }
            if same {
                found = true;
            }
            k += 1;
        }
        proof {
            let s1 = regions@.subrange(0, i as int + 1);
            assert(s1.drop_last() =~= regions@.subrange(0, i as int));
            assert(s1.last() == regions@[i as int]);
            if found {
                let m = choose|m: int| 0 <= m < k && fs[m] == f@;
                assert(fs.contains(f@)) by {
                    assert(fs[m] == f@);
                }
            } else {
                assert(!fs.contains(f@)) by {
                    if fs.contains(f@) {
                        let m = choose|m: int| 0 <= m < fs.len() && fs[m] == f@;
                        assert(fs[m] == f@);
                    }
                }
            }
        }
        if !found {
            files.push(f.clone());
        }
        i += 1;
    }
    assert(regions@.subrange(0, regions@.len() as int) =~= regions@);
    files
}

/// The spans of `regions` in file `f`, in their order.
fn regions_of_file(regions: &Vec<CodeRegion>, f: &String) -> (r: Vec<CodeRegion>)
    ensures
        r@ == of_file(regions@, f@),
{
    let mut out: Vec<CodeRegion> = Vec::new();
    let mut i: usize = 0;
    while i < regions.len()
        invariant
            i <= regions@.len(),
            out@ == of_file(regions@.subrange(0, i as int), f@),
        decreases regions@.len() - i,
    {
        proof {
            let s1 = regions@.subrange(0, i as int + 1);
            assert(s1.drop_last() =~= regions@.subrange(0, i as int));
            assert(s1.last() == regions@[i as int]);
        }
        if regions[i].file_path == *f {
            out.push(copy_region(&regions[i]));
        }
        i += 1;
    }
    assert(regions@.subrange(0, regions@.len() as int) =~= regions@);
    out
}

/// Inserts `x` into `v` after every span that starts no later than `x`.
fn insert_region(v: &mut Vec<CodeRegion>, x: CodeRegion)
    ensures
        final(v)@ == insert_by_start(old(v)@, x),
{
    let ghost s = v@;
    let mut p: usize = v.len();
    assert(s.subrange(0, s.len() as int) =~= s);
    assert(insert_by_start(s, x) + s.subrange(s.len() as int, s.len() as int) =~= insert_by_start(
        s,
        x,
    ));
    while p > 0 && !v[p - 1].start().le(&x.start())
        invariant
            v@ == s,
            p <= s.len(),
            insert_by_start(s, x) == insert_by_start(s.subrange(0, p as int), x) + s.subrange(
                p as int,
                s.len() as int,
            ),
        decreases p,
    {
        proof {
            let t = s.subrange(0, p as int);
            assert(t.drop_last() =~= s.subrange(0, p as int - 1));
            assert(t.last() == s[p as int - 1]);
            assert(s.subrange(p as int - 1, s.len() as int) =~= seq![s[p as int - 1]]
                + s.subrange(p as int, s.len() as int));
            assert(insert_by_start(t, x) == insert_by_start(s.subrange(0, p as int - 1), x).push(
                s[p as int - 1],
            ));
            assert(insert_by_start(s.subrange(0, p as int - 1), x).push(s[p as int - 1])
                + s.subrange(p as int, s.len() as int) =~= insert_by_start(
                s.subrange(0, p as int - 1),
                x,
            ) + s.subrange(p as int - 1, s.len() as int));
        }
        p -= 1;
    }
    proof {
        let t = s.subrange(0, p as int);
        if p > 0 {
            assert(t.last() == s[p as int - 1]);
        }
        assert(insert_by_start(t, x) =~= t.push(x));
        assert(t.push(x) + s.subrange(p as int, s.len() as int) =~= s.insert(p as int, x));
    }
    v.insert(p, x);
}

/// `regions` stably sorted by start position.
fn sort_regions(regions: &Vec<CodeRegion>) -> (r: Vec<CodeRegion>)
    ensures
        r@ == sort_by_start(regions@),
{
    let mut out: Vec<CodeRegion> = Vec::new();
    let mut i: usize = 0;
    while i < regions.len()
        invariant
            i <= regions@.len(),
            out@ == sort_by_start(regions@.subrange(0, i as int)),
        decreases regions@.len() - i,
    {
        proof {
            let s1 = regions@.subrange(0, i as int + 1);
            assert(s1.drop_last() =~= regions@.subrange(0, i as int));
            assert(s1.last() == regions@[i as int]);
        }
        insert_region(&mut out, copy_region(&regions[i]));
        i += 1;
    }
    assert(regions@.subrange(0, regions@.len() as int) =~= regions@);
    out
}

/// Sweeps `regions` in their order: a span contained in the accumulator is
/// dropped, one that overlaps or abuts it extends it, any other finishes it.
fn sweep_regions(regions: &Vec<CodeRegion>) -> (r: Vec<CodeRegion>)
    ensures
        r@ == sweep(regions@),
{
    let mut done: Vec<CodeRegion> = Vec::new();
    if regions.len() == 0 {
        return done;
    }
    let mut cur = copy_region(&regions[0]);
    let mut i: usize = 1;
    while i < regions.len()
        invariant
            1 <= i <= regions@.len(),
            (done@, cur) == sweep_upto(regions@, i as int),
        decreases regions@.len() - i,
    {
        let b = &regions[i];
        if is_fully_covered(&cur, b) {
        } else if can_merge(&cur, b) {
            merge_regions_in_place(&mut cur, b);
        } else {
            done.push(cur);
            cur = copy_region(b);
        }
        i += 1;
    }
    done.push(cur);
    done
}

/// Merges overlapping and adjacent spans within each file: the result holds,
/// file after file in order of first appearance, the sweep of that file's
/// spans sorted by start.
pub fn merge_uncovered_regions(uncovered_regions: Vec<CodeRegion>) -> (r: Vec<CodeRegion>)
    ensures
        r@ == merged(uncovered_regions@),
{
    let files = distinct_files(&uncovered_regions);
    let ghost fs = files_of(uncovered_regions@);
    let mut out: Vec<CodeRegion> = Vec::new();
    let mut k: usize = 0;
    while k < files.len()
        invariant
            k <= files@.len(),
            files@.len() == fs.len(),
            forall|m: int| 0 <= m < files@.len() ==> files@[m]@ == fs[m],
            out@ == merged_files(uncovered_regions@, fs.subrange(0, k as int)),
        decreases files@.len() - k,
    {
        let of_this = regions_of_file(&uncovered_regions, &files[k]);
        let sorted = sort_regions(&of_this);
        let mut block = sweep_regions(&sorted);
        proof {
            let f1 = fs.subrange(0, k as int + 1);
            assert(f1.drop_last() =~= fs.subrange(0, k as int));
            assert(f1.last() == fs[k as int]);
        }
        out.append(&mut block);
        k += 1;
    }
    assert(fs.subrange(0, fs.len() as int) =~= fs);
    out
}

} // verus!
