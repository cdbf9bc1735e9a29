//! Properties of the merge engine, proved over its specification.

use vstd::prelude::*;
use crate::region::{CodeRegion, Position, pos_le, pos_lt, touches, covers, joined};
use crate::merge::{
    of_file, files_of, insert_by_start, sort_by_start, sorted_by_start, sweep_step, sweep_upto,
    sweep, merged_file, merged_files, merged,
};

verus! {

/// Some span of `t` holds position `p`.
pub open spec fn covered_by(t: Seq<CodeRegion>, p: Position) -> bool {
    exists|k: int| 0 <= k < t.len() && #[trigger] t[k].holds(p)
}

/// Each span of `t` ends strictly before every later span starts.
pub open spec fn separated(t: Seq<CodeRegion>) -> bool {
    forall|i: int, j: int|
        0 <= i < j < t.len() ==> pos_lt(#[trigger] t[i].end_pos(), #[trigger] t[j].start_pos())
}

/// Some span of `t` fully contains `x`.
pub open spec fn absorbed(t: Seq<CodeRegion>, x: CodeRegion) -> bool {
    exists|j: int| 0 <= j < t.len() && #[trigger] covers(t[j], x)
}

pub open spec fn all_in_file(t: Seq<CodeRegion>, f: Seq<char>) -> bool {
    forall|k: int| 0 <= k < t.len() ==> (#[trigger] t[k]).file_path@ == f
}

pub open spec fn all_well_formed(t: Seq<CodeRegion>) -> bool {
    forall|k: int| 0 <= k < t.len() ==> (#[trigger] t[k]).well_formed()
}

pub open spec fn same_extent(a: CodeRegion, b: CodeRegion) -> bool {
    a.start_pos() == b.start_pos() && a.end_pos() == b.end_pos()
}

proof fn lemma_of_file_members(s: Seq<CodeRegion>, f: Seq<char>)
    ensures
        all_in_file(of_file(s, f), f),
        forall|k: int| 0 <= k < of_file(s, f).len() ==> s.contains(#[trigger] of_file(s, f)[k]),
        forall|x: CodeRegion| #[trigger] s.contains(x) && x.file_path@ == f ==> of_file(s, f).contains(x),
    decreases s.len(),
{
    if s.len() > 0 {
        let d = s.drop_last();
        lemma_of_file_members(d, f);
        let r = of_file(s, f);
        let rd = of_file(d, f);
        assert forall|k: int| 0 <= k < r.len() implies s.contains(#[trigger] r[k]) by {
            if k < rd.len() {
                assert(r[k] == rd[k]);
                assert(d.contains(rd[k]));
                let i = choose|i: int| 0 <= i < d.len() && d[i] == rd[k];
                assert(s[i] == rd[k]);
            } else {
                assert(r[k] == s.last());
                assert(s[s.len() - 1] == s.last());
            }
        }
        assert forall|x: CodeRegion| #[trigger] s.contains(x) && x.file_path@ == f implies r.contains(x) by {
            let i = choose|i: int| 0 <= i < s.len() && s[i] == x;
            if i == s.len() - 1 {
                assert(r[r.len() - 1] == x);
            } else {
                assert(d[i] == x);
                assert(d.contains(x));
                let j = choose|j: int| 0 <= j < rd.len() && rd[j] == x;
                assert(r[j] == x);
            }
        }
    }
}

proof fn lemma_of_file_concat(a: Seq<CodeRegion>, b: Seq<CodeRegion>, f: Seq<char>)
    ensures
        of_file(a + b, f) == of_file(a, f) + of_file(b, f),
    decreases b.len(),
{
    if b.len() == 0 {
        assert(a + b =~= a);
        assert(of_file(a, f) + of_file(b, f) =~= of_file(a, f));
    } else {
        lemma_of_file_concat(a, b.drop_last(), f);
        assert((a + b).drop_last() =~= a + b.drop_last());
        assert((a + b).last() == b.last());
        if b.last().file_path@ == f {
            assert(of_file(a, f) + of_file(b.drop_last(), f).push(b.last()) =~= (of_file(a, f)
                + of_file(b.drop_last(), f)).push(b.last()));
        }
    }
}

proof fn lemma_of_file_uniform(t: Seq<CodeRegion>, g: Seq<char>, f: Seq<char>)
    requires
        all_in_file(t, g),
    ensures
        g == f ==> of_file(t, f) == t,
        g != f ==> of_file(t, f) == Seq::<CodeRegion>::empty(),
    decreases t.len(),
{
    if t.len() > 0 {
        lemma_of_file_uniform(t.drop_last(), g, f);
        assert(t.last() == t[t.len() - 1]);
        if g == f {
            assert(t.drop_last().push(t.last()) =~= t);
        }
    }
}

proof fn lemma_insert(s: Seq<CodeRegion>, x: CodeRegion)
    ensures
        insert_by_start(s, x).len() == s.len() + 1,
        forall|y: CodeRegion| #[trigger] insert_by_start(s, x).contains(y) <==> (s.contains(y) || y == x),
        sorted_by_start(s) ==> sorted_by_start(insert_by_start(s, x)),
    decreases s.len(),
{
    let r = insert_by_start(s, x);
    if s.len() == 0 {
        assert forall|y: CodeRegion| #[trigger] r.contains(y) <==> (s.contains(y) || y == x) by {
            if r.contains(y) {
                let i = choose|i: int| 0 <= i < r.len() && r[i] == y;
            }
            if y == x {
                assert(r[0] == x);
            }
        }
    } else if pos_le(s.last().start_pos(), x.start_pos()) {
        assert forall|y: CodeRegion| #[trigger] r.contains(y) <==> (s.contains(y) || y == x) by {
            if r.contains(y) {
                let i = choose|i: int| 0 <= i < r.len() && r[i] == y;
                if i < s.len() {
                    assert(s[i] == y);
                }
            }
            if s.contains(y) {
                let i = choose|i: int| 0 <= i < s.len() && s[i] == y;
                assert(r[i] == y);
            }
            if y == x {
                assert(r[s.len() as int] == x);
            }
        }
        if sorted_by_start(s) {
            assert(s.last() == s[s.len() - 1]);
            assert forall|i: int, j: int| 0 <= i < j < r.len() implies pos_le(
                r[i].start_pos(),
                r[j].start_pos(),
            ) by {
                if j == r.len() - 1 {
                    assert(r[i] == s[i]);
                    if i < s.len() - 1 {
                        assert(pos_le(s[i].start_pos(), s[s.len() - 1].start_pos()));
                    }
                } else {
                    assert(r[i] == s[i]);
                    assert(r[j] == s[j]);
                }
            }
        }
    } else {
        let d = s.drop_last();
        lemma_insert(d, x);
        let rd = insert_by_start(d, x);
        assert(s.last() == s[s.len() - 1]);
        assert forall|y: CodeRegion| #[trigger] r.contains(y) <==> (s.contains(y) || y == x) by {
            if r.contains(y) {
                let i = choose|i: int| 0 <= i < r.len() && r[i] == y;
                if i < rd.len() {
                    assert(rd[i] == y);
                    assert(rd.contains(y));
                    if d.contains(y) {
                        let j = choose|j: int| 0 <= j < d.len() && d[j] == y;
                        assert(s[j] == y);
                    }
                } else {
                    assert(s[s.len() - 1] == y);
                }
            }
            if s.contains(y) {
                let i = choose|i: int| 0 <= i < s.len() && s[i] == y;
                if i < s.len() - 1 {
                    assert(d[i] == y);
                    assert(d.contains(y));
                    assert(insert_by_start(d, x).contains(y));
                    let j = choose|j: int| 0 <= j < rd.len() && rd[j] == y;
                    assert(r[j] == y);
                } else {
                    assert(r[r.len() - 1] == y);
                }
            }
            if y == x {
                assert(rd.contains(x));
                let j = choose|j: int| 0 <= j < rd.len() && rd[j] == x;
                assert(r[j] == x);
            }
        }
        if sorted_by_start(s) {
            assert(sorted_by_start(d));
            assert forall|i: int, j: int| 0 <= i < j < r.len() implies pos_le(
                r[i].start_pos(),
                r[j].start_pos(),
            ) by {
                if j == r.len() - 1 {
                    assert(r[j] == s.last());
                    assert(r[i] == rd[i]);
                    assert(rd.contains(rd[i]));
                    if rd[i] != x {
                        assert(d.contains(rd[i]));
                        let m = choose|m: int| 0 <= m < d.len() && d[m] == rd[i];
                        assert(s[m] == rd[i]);
                        assert(pos_le(s[m].start_pos(), s[s.len() - 1].start_pos()));
                    }
                } else {
                    assert(r[i] == rd[i]);
                    assert(r[j] == rd[j]);
                }
            }
        }
    }
}

proof fn lemma_sort(s: Seq<CodeRegion>)
    ensures
        sorted_by_start(sort_by_start(s)),
        sort_by_start(s).len() == s.len(),
        forall|y: CodeRegion| #[trigger] sort_by_start(s).contains(y) <==> s.contains(y),
        sorted_by_start(s) ==> sort_by_start(s) == s,
    decreases s.len(),
{
    if s.len() > 0 {
        let d = s.drop_last();
        lemma_sort(d);
        lemma_insert(sort_by_start(d), s.last());
        assert(s.last() == s[s.len() - 1]);
        assert forall|y: CodeRegion| #[trigger] sort_by_start(s).contains(y) <==> s.contains(y) by {
            if d.contains(y) {
                let i = choose|i: int| 0 <= i < d.len() && d[i] == y;
                assert(s[i] == y);
            }
            if s.contains(y) {
                let i = choose|i: int| 0 <= i < s.len() && s[i] == y;
                if i < s.len() - 1 {
                    assert(d[i] == y);
                }
            }
        }
        if sorted_by_start(s) {
            assert(sorted_by_start(d));
            if d.len() > 0 {
                assert(d.last() == s[s.len() - 2]);
            }
            assert(d.push(s.last()) =~= s);
            assert(insert_by_start(d, s.last()) =~= s);
        }
    }
}

/// What holds of the sweep's state after `n` spans of a sorted sequence.
proof fn lemma_sweep(s: Seq<CodeRegion>, n: int, f: Seq<char>)
    requires
        sorted_by_start(s),
        1 <= n <= s.len(),
    ensures
        ({
            let st = sweep_upto(s, n);
            let t = st.0.push(st.1);
            &&& pos_le(st.1.start_pos(), s[n - 1].start_pos())
            &&& separated(t)
            &&& forall|p: Position| covered_by(t, p) <==> covered_by(s.subrange(0, n), p)
            &&& forall|k: int| 0 <= k < n ==> absorbed(t, #[trigger] s[k])
            &&& all_in_file(s, f) ==> all_in_file(t, f)
            &&& all_well_formed(s) ==> all_well_formed(t)
        }),
    decreases n,
{
    let st = sweep_upto(s, n);
    let t = st.0.push(st.1);
    if n == 1 {
        assert(t =~= seq![s[0]]);
        assert(s.subrange(0, 1) =~= seq![s[0]]);
        assert(covers(t[0], s[0]));
    } else {
        lemma_sweep(s, n - 1, f);
        let pst = sweep_upto(s, n - 1);
        let pt = pst.0.push(pst.1);
        let acc = pst.1;
        let b = s[n - 1];
        assert(st == sweep_step(pst, b));
        assert(pos_le(s[n - 2].start_pos(), b.start_pos()));
        assert(s.subrange(0, n) =~= s.subrange(0, n - 1).push(b));
        assert forall|p: Position| covered_by(s.subrange(0, n), p) <==> (covered_by(
            s.subrange(0, n - 1),
            p,
        ) || b.holds(p)) by {
            let sn = s.subrange(0, n);
            let sp = s.subrange(0, n - 1);
            if covered_by(sn, p) {
                let k = choose|k: int| 0 <= k < sn.len() && #[trigger] sn[k].holds(p);
                if k < n - 1 {
                    assert(sp[k] == sn[k]);
                }
            }
            if covered_by(sp, p) {
                let k = choose|k: int| 0 <= k < sp.len() && #[trigger] sp[k].holds(p);
                assert(sn[k] == sp[k]);
            }
            if b.holds(p) {
                assert(sn[n - 1] == b);
            }
        }
        if covers(acc, b) {
            assert(t == pt);
            assert forall|p: Position| covered_by(t, p) <==> covered_by(s.subrange(0, n), p) by {
                if b.holds(p) {
                    assert(t[t.len() - 1].holds(p));
                }
            }
            assert forall|k: int| 0 <= k < n implies absorbed(t, #[trigger] s[k]) by {
                if k == n - 1 {
                    assert(covers(t[t.len() - 1], s[k]));
                }
            }
        } else if touches(acc, b) {
            let nacc = joined(acc, b);
            assert(t =~= pt.update(pt.len() - 1, nacc));
            assert(covers(nacc, acc));
            assert(covers(nacc, b));
            assert forall|i: int, j: int| 0 <= i < j < t.len() implies pos_lt(
                #[trigger] t[i].end_pos(),
                #[trigger] t[j].start_pos(),
            ) by {
                assert(pos_lt(pt[i].end_pos(), pt[j].start_pos()));
            }
            assert forall|p: Position| covered_by(t, p) <==> covered_by(s.subrange(0, n), p) by {
                if covered_by(t, p) {
                    let k = choose|k: int| 0 <= k < t.len() && #[trigger] t[k].holds(p);
                    if k < t.len() - 1 {
                        assert(pt[k].holds(p));
                    } else if acc.holds(p) {
                        assert(pt[pt.len() - 1].holds(p));
                    }
                }
                if covered_by(pt, p) {
                    let k = choose|k: int| 0 <= k < pt.len() && #[trigger] pt[k].holds(p);
                    if k < pt.len() - 1 {
                        assert(t[k].holds(p));
                    } else {
                        assert(t[t.len() - 1].holds(p));
                    }
                }
                if b.holds(p) {
                    assert(t[t.len() - 1].holds(p));
                }
            }
            assert forall|k: int| 0 <= k < n implies absorbed(t, #[trigger] s[k]) by {
                if k == n - 1 {
                    assert(covers(t[t.len() - 1], s[k]));
                } else {
                    assert(absorbed(pt, s[k]));
                    let j = choose|j: int| 0 <= j < pt.len() && #[trigger] covers(pt[j], s[k]);
                    if j < pt.len() - 1 {
                        assert(covers(t[j], s[k]));
                    } else {
                        assert(covers(t[t.len() - 1], s[k]));
                    }
                }
            }
            if all_in_file(s, f) {
                assert(t[t.len() - 1] == nacc);
                assert(pt[pt.len() - 1] == acc);
            }
            if all_well_formed(s) {
                assert(t[t.len() - 1] == nacc);
                assert(pt[pt.len() - 1] == acc);
            }
        } else {
            assert(t =~= pt.push(b));
            assert forall|i: int, j: int| 0 <= i < j < t.len() implies pos_lt(
                #[trigger] t[i].end_pos(),
                #[trigger] t[j].start_pos(),
            ) by {
                if j < pt.len() {
                    assert(pos_lt(pt[i].end_pos(), pt[j].start_pos()));
                } else if i < pt.len() - 1 {
                    assert(pos_lt(pt[i].end_pos(), pt[pt.len() - 1].start_pos()));
                }
            }
            assert forall|p: Position| covered_by(t, p) <==> covered_by(s.subrange(0, n), p) by {
                if covered_by(t, p) {
                    let k = choose|k: int| 0 <= k < t.len() && #[trigger] t[k].holds(p);
                    if k < pt.len() {
                        assert(pt[k].holds(p));
                    }
                }
                if covered_by(pt, p) {
                    let k = choose|k: int| 0 <= k < pt.len() && #[trigger] pt[k].holds(p);
                    assert(t[k].holds(p));
                }
                if b.holds(p) {
                    assert(t[t.len() - 1].holds(p));
                }
            }
            assert forall|k: int| 0 <= k < n implies absorbed(t, #[trigger] s[k]) by {
                if k == n - 1 {
                    assert(covers(t[t.len() - 1], s[k]));
                } else {
                    assert(absorbed(pt, s[k]));
                    let j = choose|j: int| 0 <= j < pt.len() && #[trigger] covers(pt[j], s[k]);
                    assert(covers(t[j], s[k]));
                }
            }
        }
    }
}

proof fn lemma_files_of(s: Seq<CodeRegion>)
    ensures
        forall|i: int, j: int|
            0 <= i < j < files_of(s).len() ==> #[trigger] files_of(s)[i] != #[trigger] files_of(s)[j],
        forall|f: Seq<char>|
            #[trigger] files_of(s).contains(f) <==> exists|k: int|
                0 <= k < s.len() && (#[trigger] s[k]).file_path@ == f,
    decreases s.len(),
{
    if s.len() > 0 {
        let d = s.drop_last();
        lemma_files_of(d);
        let fs = files_of(s);
        let fd = files_of(d);
        assert(s.last() == s[s.len() - 1]);
        assert forall|f: Seq<char>| #[trigger] fs.contains(f) <==> exists|k: int|
            0 <= k < s.len() && (#[trigger] s[k]).file_path@ == f by {
            if fs.contains(f) {
                let i = choose|i: int| 0 <= i < fs.len() && fs[i] == f;
                if i < fd.len() {
                    assert(fd[i] == f);
                    assert(fd.contains(f));
                    let k = choose|k: int| 0 <= k < d.len() && (#[trigger] d[k]).file_path@ == f;
                    assert(s[k] == d[k]);
                } else {
                    assert(s[s.len() - 1].file_path@ == f);
                }
            }
            if exists|k: int| 0 <= k < s.len() && (#[trigger] s[k]).file_path@ == f {
                let k = choose|k: int| 0 <= k < s.len() && (#[trigger] s[k]).file_path@ == f;
                if k < s.len() - 1 {
                    assert(d[k] == s[k]);
                    assert(fd.contains(f));
                    let i = choose|i: int| 0 <= i < fd.len() && fd[i] == f;
                    assert(fs[i] == f);
                } else if !fd.contains(f) {
                    assert(fs[fs.len() - 1] == f);
                }
            }
        }
        if !fd.contains(s.last().file_path@) {
            assert forall|i: int, j: int| 0 <= i < j < fs.len() implies #[trigger] fs[i]
                != #[trigger] fs[j] by {
                if j == fs.len() - 1 {
                    assert(fs[i] == fd[i]);
                }
            }
        }
    }
}

proof fn lemma_files_of_uniform(t: Seq<CodeRegion>, f: Seq<char>)
    requires
        all_in_file(t, f),
        t.len() > 0,
    ensures
        files_of(t) == seq![f],
    decreases t.len(),
{
    assert(t.last() == t[t.len() - 1]);
    if t.len() == 1 {
        assert(files_of(t.drop_last()) =~= Seq::<Seq<char>>::empty());
        assert(files_of(t) =~= seq![f]);
    } else {
        lemma_files_of_uniform(t.drop_last(), f);
        assert(seq![f][0] == f);
    }
}

/// What holds of the merged spans of one file.
proof fn lemma_merged_file(s: Seq<CodeRegion>, f: Seq<char>)
    ensures
        ({
            let m = merged_file(s, f);
            let o = of_file(s, f);
            &&& all_in_file(m, f)
            &&& separated(m)
            &&& forall|p: Position| covered_by(m, p) <==> covered_by(o, p)
            &&& forall|x: CodeRegion| #[trigger] o.contains(x) ==> absorbed(m, x)
            &&& all_well_formed(s) ==> all_well_formed(m)
        }),
{
    let o = of_file(s, f);
    let so = sort_by_start(o);
    let m = merged_file(s, f);
    lemma_of_file_members(s, f);
    lemma_sort(o);
    assert(all_in_file(so, f)) by {
        assert forall|k: int| 0 <= k < so.len() implies (#[trigger] so[k]).file_path@ == f by {
            assert(so.contains(so[k]));
            let i = choose|i: int| 0 <= i < o.len() && o[i] == so[k];
        }
    }
    if all_well_formed(s) {
        assert forall|k: int| 0 <= k < so.len() implies (#[trigger] so[k]).well_formed() by {
            assert(so.contains(so[k]));
            let i = choose|i: int| 0 <= i < o.len() && o[i] == so[k];
            assert(s.contains(o[i]));
            let j = choose|j: int| 0 <= j < s.len() && s[j] == o[i];
        }
    }
    assert forall|p: Position| covered_by(so, p) <==> covered_by(o, p) by {
        if covered_by(so, p) {
            let k = choose|k: int| 0 <= k < so.len() && #[trigger] so[k].holds(p);
            assert(so.contains(so[k]));
            let i = choose|i: int| 0 <= i < o.len() && o[i] == so[k];
            assert(o[i].holds(p));
        }
        if covered_by(o, p) {
            let k = choose|k: int| 0 <= k < o.len() && #[trigger] o[k].holds(p);
            assert(o.contains(o[k]));
            assert(so.contains(o[k]));
            let i = choose|i: int| 0 <= i < so.len() && so[i] == o[k];
            assert(so[i].holds(p));
        }
    }
    if so.len() == 0 {
        assert(m.len() == 0);
        assert forall|p: Position| !covered_by(o, p) by {
            if covered_by(o, p) {
                let k = choose|k: int| 0 <= k < o.len() && #[trigger] o[k].holds(p);
                assert(so.contains(o[k]));
            }
        }
        assert forall|x: CodeRegion| #[trigger] o.contains(x) implies absorbed(m, x) by {
            assert(so.contains(x));
        }
    } else {
        lemma_sweep(so, so.len() as int, f);
        assert(so.subrange(0, so.len() as int) =~= so);
        assert forall|x: CodeRegion| #[trigger] o.contains(x) implies absorbed(m, x) by {
            assert(so.contains(x));
            let i = choose|i: int| 0 <= i < so.len() && so[i] == x;
            assert(absorbed(m, so[i]));
        }
    }
}

proof fn lemma_of_merged_files(s: Seq<CodeRegion>, fs: Seq<Seq<char>>, f: Seq<char>)
    requires
        forall|i: int, j: int| 0 <= i < j < fs.len() ==> #[trigger] fs[i] != #[trigger] fs[j],
    ensures
        of_file(merged_files(s, fs), f) == (if fs.contains(f) {
            merged_file(s, f)
        } else {
            Seq::<CodeRegion>::empty()
        }),
    decreases fs.len(),
{
    if fs.len() > 0 {
        let d = fs.drop_last();
        let g = fs.last();
        lemma_of_merged_files(s, d, f);
        lemma_of_file_concat(merged_files(s, d), merged_file(s, g), f);
        lemma_merged_file(s, g);
        lemma_of_file_uniform(merged_file(s, g), g, f);
        assert(g == fs[fs.len() - 1]);
        if g == f {
            assert(!d.contains(f)) by {
                if d.contains(f) {
                    let i = choose|i: int| 0 <= i < d.len() && d[i] == f;
                    assert(fs[i] == f);
                }
            }
            assert(fs.contains(f));
            assert(Seq::<CodeRegion>::empty() + merged_file(s, f) =~= merged_file(s, f));
        } else {
            assert(d.contains(f) <==> fs.contains(f)) by {
                if fs.contains(f) {
                    let i = choose|i: int| 0 <= i < fs.len() && fs[i] == f;
                    assert(d[i] == f);
                }
                if d.contains(f) {
                    let i = choose|i: int| 0 <= i < d.len() && d[i] == f;
                    assert(fs[i] == f);
                }
            }
            assert(of_file(merged_files(s, d), f) + Seq::<CodeRegion>::empty() =~= of_file(
                merged_files(s, d),
                f,
            ));
        }
    }
}

/// The spans of file `f` in the merge result are exactly that file's merged spans.
proof fn lemma_merged_of_file(s: Seq<CodeRegion>, f: Seq<char>)
    ensures
        of_file(merged(s), f) == merged_file(s, f),
{
    lemma_files_of(s);
    lemma_of_merged_files(s, files_of(s), f);
    if !files_of(s).contains(f) {
        lemma_of_file_members(s, f);
        let o = of_file(s, f);
        if o.len() > 0 {
            assert(s.contains(o[0]));
            let k = choose|k: int| 0 <= k < s.len() && s[k] == o[0];
            assert(s[k].file_path@ == f);
        }
        assert(o.len() == 0);
        lemma_sort(o);
    }
}

proof fn lemma_sweep_identity(s: Seq<CodeRegion>, n: int)
    requires
        all_well_formed(s),
        separated(s),
        1 <= n <= s.len(),
    ensures
        sweep_upto(s, n) == (s.subrange(0, n - 1), s[n - 1]),
    decreases n,
{
    if n == 1 {
        assert(s.subrange(0, 0) =~= Seq::<CodeRegion>::empty());
    } else {
        lemma_sweep_identity(s, n - 1);
        assert(pos_lt(s[n - 2].end_pos(), s[n - 1].start_pos()));
        assert(s[n - 1].well_formed());
        assert(s.subrange(0, n - 2).push(s[n - 2]) =~= s.subrange(0, n - 1));
    }
}

/// Merging is idempotent: merging one file's spans of a merge result gives
/// those spans back unchanged (for spans that do not end before they start).
pub proof fn lemma_merge_idempotent(s: Seq<CodeRegion>, f: Seq<char>)
    requires
        all_well_formed(s),
    ensures
        merged(of_file(merged(s), f)) == of_file(merged(s), f),
{
    lemma_merged_of_file(s, f);
    lemma_merged_file(s, f);
    lemma_merge_idempotent_step(s, f);
    let t = merged_file(s, f);
    if t.len() == 0 {
        assert(files_of(t) =~= Seq::<Seq<char>>::empty());
        assert(merged(t) =~= t);
    } else {
        lemma_files_of_uniform(t, f);
        lemma_of_file_uniform(t, f, f);
        let fs = seq![f];
        assert(fs.drop_last() =~= Seq::<Seq<char>>::empty());
        assert(fs.last() == f);
        assert(merged_files(t, fs.drop_last()) =~= Seq::<CodeRegion>::empty());
        assert(Seq::<CodeRegion>::empty() + t =~= t);
        assert(merged(t) == merged_files(t, fs));
    }
}

/// Merging keeps exactly the covered positions: within any file, a position
/// lies in some merged span iff it lies in some input span.
pub proof fn lemma_merge_preserves_coverage(s: Seq<CodeRegion>, f: Seq<char>, p: Position)
    ensures
        covered_by(of_file(merged(s), f), p) <==> covered_by(of_file(s, f), p),
{
    lemma_merged_of_file(s, f);
    lemma_merged_file(s, f);
}

/// No two merged spans of one file overlap or abut: each ends strictly before
/// the next one starts.
pub proof fn lemma_merge_no_overlap(s: Seq<CodeRegion>, f: Seq<char>)
    ensures
        forall|i: int, j: int|
            0 <= i < j < of_file(merged(s), f).len() ==> !touches(
                #[trigger] of_file(merged(s), f)[i],
                #[trigger] of_file(merged(s), f)[j],
            ),
{
    lemma_merged_of_file(s, f);
    lemma_merged_file(s, f);
    let t = of_file(merged(s), f);
    assert forall|i: int, j: int| 0 <= i < j < t.len() implies !touches(
        #[trigger] t[i],
        #[trigger] t[j],
    ) by {
        assert(pos_lt(t[i].end_pos(), t[j].start_pos()));
    }
}

/// A well-formed input span strictly inside another input span of its file
/// does not survive the merge as a span of its own.
pub proof fn lemma_merge_drops_contained(s: Seq<CodeRegion>, a: CodeRegion, b: CodeRegion)
    requires
        s.contains(a),
        s.contains(b),
        a.file_path@ == b.file_path@,
        covers(a, b),
        b.well_formed(),
        !same_extent(a, b),
    ensures
        forall|k: int|
            0 <= k < of_file(merged(s), b.file_path@).len() ==> !same_extent(
                #[trigger] of_file(merged(s), b.file_path@)[k],
                b,
            ),
        !merged(s).contains(b),
{
    let f = b.file_path@;
    lemma_merged_of_file(s, f);
    lemma_merged_file(s, f);
    lemma_of_file_members(s, f);
    let t = of_file(merged(s), f);
    assert(of_file(s, f).contains(a));
    assert(absorbed(t, a));
    let j = choose|j: int| 0 <= j < t.len() && #[trigger] covers(t[j], a);
    assert forall|k: int| 0 <= k < t.len() implies !same_extent(#[trigger] t[k], b) by {
        if same_extent(t[k], b) {
            if k < j {
                assert(pos_lt(t[k].end_pos(), t[j].start_pos()));
            } else if j < k {
                assert(pos_lt(t[j].end_pos(), t[k].start_pos()));
            }
        }
    }
    lemma_of_file_members(merged(s), f);
    if merged(s).contains(b) {
        assert(t.contains(b));
        let k = choose|k: int| 0 <= k < t.len() && t[k] == b;
        assert(same_extent(t[k], b));
    }
}

proof fn lemma_files_of_append_uniform(a: Seq<CodeRegion>, b: Seq<CodeRegion>, g: Seq<char>)
    requires
        all_in_file(b, g),
        b.len() > 0,
        !files_of(a).contains(g),
    ensures
        files_of(a + b) == files_of(a).push(g),
    decreases b.len(),
{
    assert((a + b).drop_last() =~= a + b.drop_last());
    assert((a + b).last() == b[b.len() - 1]);
    if b.len() == 1 {
        assert(a + b.drop_last() =~= a);
    } else {
        lemma_files_of_append_uniform(a, b.drop_last(), g);
        assert(files_of(a).push(g)[files_of(a).len() as int] == g);
    }
}

/// The merged spans of `s` for each file of `fs`, in that order, are merged
/// again to themselves, and name those files in that order.
proof fn lemma_merged_files_stable(s: Seq<CodeRegion>, fs: Seq<Seq<char>>)
    requires
        all_well_formed(s),
        forall|i: int, j: int| 0 <= i < j < fs.len() ==> #[trigger] fs[i] != #[trigger] fs[j],
        forall|i: int| 0 <= i < fs.len() ==> #[trigger] files_of(s).contains(fs[i]),
    ensures
        files_of(merged_files(s, fs)) == fs,
        forall|f: Seq<char>| #[trigger] fs.contains(f) ==> merged_file(merged_files(s, fs), f)
            == merged_file(s, f),
    decreases fs.len(),
{
    let m = merged_files(s, fs);
    lemma_files_of(s);
    lemma_of_merged_files(s, fs, Seq::empty());
    if fs.len() == 0 {
        assert(files_of(m) =~= fs);
    } else {
        let d = fs.drop_last();
        let g = fs.last();
        assert(g == fs[fs.len() - 1]);
        assert forall|i: int| 0 <= i < d.len() implies #[trigger] files_of(s).contains(d[i]) by {
            assert(d[i] == fs[i]);
        }
        lemma_merged_files_stable(s, d);
        let a = merged_files(s, d);
        let b = merged_file(s, g);
        lemma_merged_file(s, g);
        assert(!d.contains(g)) by {
            if d.contains(g) {
                let i = choose|i: int| 0 <= i < d.len() && d[i] == g;
                assert(fs[i] == g);
            }
        }
        assert(b.len() > 0) by {
            assert(files_of(s).contains(g));
            let k = choose|k: int| 0 <= k < s.len() && (#[trigger] s[k]).file_path@ == g;
            lemma_of_file_members(s, g);
            assert(s.contains(s[k]));
            assert(of_file(s, g).contains(s[k]));
            assert(absorbed(b, s[k]));
        }
        lemma_files_of_append_uniform(a, b, g);
        assert(d.push(g) =~= fs);
        lemma_files_of(m);
        assert forall|f: Seq<char>| #[trigger] fs.contains(f) implies merged_file(m, f)
            == merged_file(s, f) by {
            lemma_of_merged_files(s, fs, f);
            lemma_merge_idempotent_step(s, f);
        }
    }
}

/// Re-merging one file's merged spans gives them back.
proof fn lemma_merge_idempotent_step(s: Seq<CodeRegion>, f: Seq<char>)
    requires
        all_well_formed(s),
    ensures
        sort_by_start(merged_file(s, f)) == merged_file(s, f),
        sweep(merged_file(s, f)) == merged_file(s, f),
{
    lemma_merged_file(s, f);
    let t = merged_file(s, f);
    assert(sorted_by_start(t)) by {
        assert forall|i: int, j: int| 0 <= i < j < t.len() implies pos_le(
            t[i].start_pos(),
            t[j].start_pos(),
        ) by {
            assert(t[i].well_formed());
            assert(pos_lt(t[i].end_pos(), t[j].start_pos()));
        }
    }
    lemma_sort(t);
    if t.len() > 0 {
        lemma_sweep_identity(t, t.len() as int);
        assert(t.subrange(0, t.len() - 1).push(t[t.len() - 1]) =~= t);
    }
}

proof fn lemma_merged_files_congruent(s1: Seq<CodeRegion>, s2: Seq<CodeRegion>, fs: Seq<Seq<char>>)
    requires
        forall|f: Seq<char>| #[trigger] fs.contains(f) ==> merged_file(s1, f) == merged_file(s2, f),
    ensures
        merged_files(s1, fs) == merged_files(s2, fs),
    decreases fs.len(),
{
    if fs.len() > 0 {
        let d = fs.drop_last();
        assert forall|f: Seq<char>| #[trigger] d.contains(f) implies merged_file(s1, f)
            == merged_file(s2, f) by {
            let i = choose|i: int| 0 <= i < d.len() && d[i] == f;
            assert(fs[i] == f);
            assert(fs.contains(f));
        }
        lemma_merged_files_congruent(s1, s2, d);
        assert(fs.contains(fs[fs.len() - 1]));
    }
}

/// Merging the whole merge result again changes nothing (for spans that do
/// not end before they start).
pub proof fn lemma_merge_fixed_point(s: Seq<CodeRegion>)
    requires
        all_well_formed(s),
    ensures
        merged(merged(s)) == merged(s),
{
    let fs = files_of(s);
    lemma_files_of(s);
    assert forall|i: int| 0 <= i < fs.len() implies #[trigger] files_of(s).contains(fs[i]) by {}
    lemma_merged_files_stable(s, fs);
    let m = merged(s);
    lemma_merged_files_congruent(m, s, fs);
}

/// Two spans of file `f` at positions `i < j` of `s` keep their order in `of_file(s, f)`.
proof fn lemma_of_file_order(s: Seq<CodeRegion>, f: Seq<char>, i: int, j: int)
    requires
        0 <= i < j < s.len(),
        s[i].file_path@ == f,
        s[j].file_path@ == f,
    ensures
        exists|a: int, b: int|
            0 <= a < b < of_file(s, f).len() && #[trigger] of_file(s, f)[a] == s[i]
                && #[trigger] of_file(s, f)[b] == s[j],
    decreases s.len(),
{
    let d = s.drop_last();
    let o = of_file(s, f);
    let od = of_file(d, f);
    if j < s.len() - 1 {
        lemma_of_file_order(d, f, i, j);
        let (a, b) = choose|a: int, b: int|
            0 <= a < b < od.len() && #[trigger] od[a] == d[i] && #[trigger] od[b] == d[j];
        assert(o[a] == od[a] && o[b] == od[b]);
    } else {
        lemma_of_file_members(d, f);
        assert(d[i] == s[i]);
        assert(d.contains(s[i]));
        assert(od.contains(s[i]));
        let a = choose|a: int| 0 <= a < od.len() && od[a] == s[i];
        assert(s.last() == s[j]);
        assert(o[a] == od[a]);
        assert(o[od.len() as int] == s[j]);
    }
}

/// No two spans of one file in the whole merge result overlap or abut: of two
/// such spans, the one starting no later ends strictly before the other
/// starts (for spans that do not end before they start).
pub proof fn lemma_merge_result_no_overlap(s: Seq<CodeRegion>)
    requires
        all_well_formed(s),
    ensures
        forall|i: int, j: int|
            0 <= i < merged(s).len() && 0 <= j < merged(s).len() && i != j
                && (#[trigger] merged(s)[i]).file_path@ == (#[trigger] merged(s)[j]).file_path@
                && pos_le(merged(s)[i].start_pos(), merged(s)[j].start_pos()) ==> pos_lt(
                merged(s)[i].end_pos(),
                merged(s)[j].start_pos(),
            ),
{
    let m = merged(s);
    assert forall|i: int, j: int|
        0 <= i < m.len() && 0 <= j < m.len() && i != j && (#[trigger] m[i]).file_path@ == (
        #[trigger] m[j]).file_path@ && pos_le(m[i].start_pos(), m[j].start_pos()) implies pos_lt(
        m[i].end_pos(),
        m[j].start_pos(),
    ) by {
        let f = m[i].file_path@;
        lemma_merged_of_file(s, f);
        lemma_merged_file(s, f);
        let t = of_file(m, f);
        let (lo, hi) = if i < j { (i, j) } else { (j, i) };
        lemma_of_file_order(m, f, lo, hi);
        let (a, b) = choose|a: int, b: int|
            0 <= a < b < t.len() && #[trigger] t[a] == m[lo] && #[trigger] t[b] == m[hi];
        assert(pos_lt(t[a].end_pos(), t[b].start_pos()));
        assert(t[a].well_formed() && t[b].well_formed());
    }
}

} // verus!
