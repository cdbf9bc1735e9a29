//! Cutting a span's text out of a file's contents, clamping positions that
//! lie outside the file to the nearest valid ones.

use vstd::prelude::*;

verus! {

pub const NEWLINE: u8 = 10;

/// The text of a span, and whether some position had to be clamped.
#[derive(Debug, Clone, PartialEq, Eq)]
pub struct FilePart {
    pub text: Vec<u8>,
    pub clamped: bool,
}

/// `c` split at each newline; there is always at least one line.
pub open spec fn split_lines(c: Seq<u8>) -> Seq<Seq<u8>>
    decreases c.len(),
{
    if c.len() == 0 {
        seq![Seq::empty()]
    } else {
        let r = split_lines(c.drop_last());
        if c.last() == NEWLINE {
            r.push(Seq::empty())
        } else {
            r.update(r.len() - 1, r.last().push(c.last()))
        }
    }
}

/// The 0-based index of 1-based line `line`, clamped into `0..n`.
pub open spec fn line_index(line: int, n: int) -> int {
    if line - 1 < 0 {
        0
    } else if line - 1 > n - 1 {
        n - 1
    } else {
        line - 1
    }
}

pub open spec fn clamp(x: int, lo: int, hi: int) -> int {
    if x < lo {
        lo
    } else if x > hi {
        hi
    } else {
        x
    }
}

/// Wanted start offset in line `k` of lines `si..=ei`: the start column on the
/// first line, else the line's start.
pub open spec fn raw_start(k: int, si: int, sc: int) -> int {
    if k == si {
        sc - 1
    } else {
        0
    }
}

/// Wanted end offset in line `k`: the end column on the last line, else the line's end.
pub open spec fn raw_end(line: Seq<u8>, k: int, ei: int, ec: int) -> int {
    if k == ei {
        ec - 1
    } else {
        line.len() as int
    }
}

pub open spec fn piece_start(line: Seq<u8>, k: int, si: int, sc: int) -> int {
    clamp(raw_start(k, si, sc), 0, line.len() as int)
}

pub open spec fn piece_end(line: Seq<u8>, k: int, si: int, ei: int, sc: int, ec: int) -> int {
    let e = clamp(raw_end(line, k, ei, ec), 0, line.len() as int);
    let s = piece_start(line, k, si, sc);
    if e < s {
        s
    } else {
        e
    }
}

/// The part of line `k` that the span covers.
pub open spec fn piece(line: Seq<u8>, k: int, si: int, ei: int, sc: int, ec: int) -> Seq<u8> {
    line.subrange(piece_start(line, k, si, sc), piece_end(line, k, si, ei, sc, ec))
}

/// Line `k` needed a column clamped.
pub open spec fn piece_clamped(line: Seq<u8>, k: int, si: int, ei: int, sc: int, ec: int) -> bool {
    piece_start(line, k, si, sc) != raw_start(k, si, sc) || piece_end(line, k, si, ei, sc, ec)
        != raw_end(line, k, ei, ec)
}

/// The pieces of lines `si..k`, joined by newlines.
pub open spec fn text_upto(lines: Seq<Seq<u8>>, si: int, ei: int, sc: int, ec: int, k: int) -> Seq<u8>
    decreases k - si,
{
    if k <= si {
        Seq::empty()
    } else if k == si + 1 {
        piece(lines[si], si, si, ei, sc, ec)
    } else {
        text_upto(lines, si, ei, sc, ec, k - 1) + seq![NEWLINE] + piece(
            lines[k - 1],
            k - 1,
            si,
            ei,
            sc,
            ec,
        )
    }
}

/// Some line of `si..k` needed a column clamped.
pub open spec fn clamped_upto(lines: Seq<Seq<u8>>, si: int, ei: int, sc: int, ec: int, k: int) -> bool
    decreases k - si,
{
    if k <= si {
        false
    } else {
        clamped_upto(lines, si, ei, sc, ec, k - 1) || piece_clamped(lines[k - 1], k - 1, si, ei, sc, ec)
    }
}

/// The text of the span `(sl, sc)`-`(el, ec)` (1-based, end column exclusive)
/// in `content`, lines joined by newlines, and whether a line or column lay
/// outside the file (or the lines came in reverse order) and was clamped.
pub open spec fn file_part_of(content: Seq<u8>, sl: int, sc: int, el: int, ec: int) -> (Seq<u8>, bool) {
    let lines = split_lines(content);
    let n = lines.len() as int;
    let si = line_index(sl, n);
    let ei = line_index(el, n);
    let lines_clamped = si != sl - 1 || ei != el - 1;
    if si > ei {
        (Seq::empty(), true)
    } else {
        (
            text_upto(lines, si, ei, sc, ec, ei + 1),
            lines_clamped || clamped_upto(lines, si, ei, sc, ec, ei + 1),
        )
    }
}

proof fn lemma_split_lines_nonempty(c: Seq<u8>)
    ensures
        split_lines(c).len() >= 1,
        split_lines(c).len() <= c.len() + 1,
    decreases c.len(),
{
    if c.len() > 0 {
        lemma_split_lines_nonempty(c.drop_last());
    }
}

/// The lines of `content`.
fn lines_of(content: &Vec<u8>) -> (r: Vec<Vec<u8>>)
    ensures
        r@.map_values(|l: Vec<u8>| l@) == split_lines(content@),
{
    let mut done: Vec<Vec<u8>> = Vec::new();
    let mut cur: Vec<u8> = Vec::new();
    let mut i: usize = 0;
    assert(content@.subrange(0, 0) =~= Seq::<u8>::empty());
    assert(done@.map_values(|l: Vec<u8>| l@).push(cur@) =~= seq![Seq::<u8>::empty()]);
    while i < content.len()
        invariant
            i <= content@.len(),
            done@.map_values(|l: Vec<u8>| l@).push(cur@) == split_lines(
                content@.subrange(0, i as int),
            ),
        decreases content@.len() - i,
    {
        let ghost prev = done@.map_values(|l: Vec<u8>| l@).push(cur@);
        proof {
            let s1 = content@.subrange(0, i as int + 1);
            assert(s1.drop_last() =~= content@.subrange(0, i as int));
            assert(s1.last() == content@[i as int]);
        }
        let b: u8 = content[i];
        if b == NEWLINE {
            done.push(cur);
            cur = Vec::new();
            assert(done@.map_values(|l: Vec<u8>| l@).push(cur@) =~= prev.push(Seq::empty()));
        } else {
            cur.push(b);
            assert(done@.map_values(|l: Vec<u8>| l@).push(cur@) =~= prev.update(
                prev.len() - 1,
                prev.last().push(b),
            ));
        }
        i += 1;
    }
    assert(content@.subrange(0, content@.len() as int) =~= content@);
    done.push(cur);
    assert(done@.map_values(|l: Vec<u8>| l@) =~= split_lines(content@));
    done
}

/// The text of a span in a file's contents, with out-of-range lines and
/// columns clamped to the nearest valid ones and the clamping reported.
pub fn get_file_part(
    content: &Vec<u8>,
    start_line: u64,
    start_column: u64,
    end_line: u64,
    end_column: u64,
) -> (r: FilePart)
    ensures
        (r.text@, r.clamped) == file_part_of(
            content@,
            start_line as int,
            start_column as int,
            end_line as int,
            end_column as int,
        ),
{
    let lines = lines_of(content);
    let ghost ls = split_lines(content@);
    proof {
        lemma_split_lines_nonempty(content@);
        assert(lines@.len() == ls.len());
    }
    let n: u64 = lines.len() as u64;
    let si: u64 = if start_line == 0 {
        0
    } else if start_line - 1 > n - 1 {
        n - 1
    } else {
        start_line - 1
    };
    let ei: u64 = if end_line == 0 {
        0
    } else if end_line - 1 > n - 1 {
        n - 1
    } else {
        end_line - 1
    };
    let lines_clamped = start_line == 0 || si != start_line - 1 || end_line == 0 || ei != end_line
        - 1;
    if si > ei {
        return FilePart { text: Vec::new(), clamped: true };
    }
    let ghost (gsi, gei, gsc, gec) = (si as int, ei as int, start_column as int, end_column as int);
    let mut text: Vec<u8> = Vec::new();
    let mut clamped = false;
    let mut k: u64 = si;
    while k <= ei
        invariant
            si <= k <= ei + 1,
            ei < n,
            n == lines@.len(),
            lines@.map_values(|l: Vec<u8>| l@) == ls,
            gsi == si as int,
            gei == ei as int,
            gsc == start_column as int,
            gec == end_column as int,
            text@ == text_upto(ls, gsi, gei, gsc, gec, k as int),
            clamped == clamped_upto(ls, gsi, gei, gsc, gec, k as int),
        decreases ei + 1 - k,
    {
        let line = &lines[k as usize];
        let ghost gl = ls[k as int];
        assert(line@ == gl);
        let len: u64 = line.len() as u64;
        let raw_s: i128 = if k == si {
            start_column as i128 - 1
        } else {
            0
        };
        let raw_e: i128 = if k == ei {
            end_column as i128 - 1
        } else {
            len as i128
        };
        let s: i128 = if raw_s < 0 {
            0
        } else if raw_s > len as i128 {
            len as i128
        } else {
            raw_s
        };
        let e0: i128 = if raw_e < 0 {
            0
        } else if raw_e > len as i128 {
            len as i128
        } else {
            raw_e
        };
        let e: i128 = if e0 < s {
            s
        } else {
            e0
        };
        assert(s == piece_start(gl, k as int, gsi, gsc));
        assert(e == piece_end(gl, k as int, gsi, gei, gsc, gec));
        let ghost before = text@;
        if k > si {
            text.push(NEWLINE);
        }
        let ll: usize = line.len();
        assert(0 <= s <= e <= ll);
        let su: usize = s as usize;
        let eu: usize = e as usize;
        assert(su as int == s && eu as int == e);
        let mut j: usize = su;
        while j < eu
            invariant
                su <= j <= eu,
                eu <= line@.len(),
                su as int == s,
                k > si ==> text@ == before + seq![NEWLINE] + line@.subrange(s as int, j as int),
                k == si ==> text@ == before + line@.subrange(s as int, j as int),
            decreases eu - j,
        {
            text.push(line[j]);
            proof {
                assert(line@.subrange(s as int, j as int + 1) =~= line@.subrange(s as int, j as int).push(
                    line@[j as int],
                ));
                if k > si {
                    assert(before + seq![NEWLINE] + line@.subrange(s as int, j as int + 1) =~= (before
                        + seq![NEWLINE] + line@.subrange(s as int, j as int)).push(line@[j as int]));
                } else {
                    assert(before + line@.subrange(s as int, j as int + 1) =~= (before
                        + line@.subrange(s as int, j as int)).push(line@[j as int]));
                }
            }
            j += 1;
        }
        proof {
            if k == si {
                assert(before =~= Seq::<u8>::empty());
                assert(text@ =~= piece(gl, k as int, gsi, gei, gsc, gec));
            }
        }
        if s != raw_s || e != raw_e {
            clamped = true;
        }
        k += 1;
    }
    FilePart { text, clamped: lines_clamped || clamped }
}

} // verus!
