//! Source positions and half-open source spans.

use vstd::prelude::*;

verus! {

/// A point in a source file: 1-indexed line and column.
#[derive(Debug, Clone, Copy, PartialEq, Eq)]
pub struct Position {
    pub line: u64,
    pub column: u64,
}

/// Lexicographic order on positions: by line, then by column.
pub open spec fn pos_le(a: Position, b: Position) -> bool {
    a.line < b.line || (a.line == b.line && a.column <= b.column)
}

pub open spec fn pos_lt(a: Position, b: Position) -> bool {
    a.line < b.line || (a.line == b.line && a.column < b.column)
}

pub open spec fn pos_min(a: Position, b: Position) -> Position {
    if pos_le(a, b) { a } else { b }
}

pub open spec fn pos_max(a: Position, b: Position) -> Position {
    if pos_le(a, b) { b } else { a }
}

impl Position {
    /// `self <= other` in the lexicographic order.
    pub fn le(&self, other: &Position) -> (r: bool)
        ensures
            r == pos_le(*self, *other),
    {
        self.line < other.line || (self.line == other.line && self.column <= other.column)
    }
}

/// A half-open span `[start, end)` of one source file; the end is exclusive.
#[derive(Debug, Clone, PartialEq, Eq)]
pub struct CodeRegion {
    pub file_path: String,
    pub start_line: u64,
    pub start_column: u64,
    pub end_line: u64,
    pub end_column: u64,
}

/// A never-executed code span.
pub type UncoveredRegion = CodeRegion;

impl CodeRegion {
    pub open spec fn start_pos(self) -> Position {
        Position { line: self.start_line, column: self.start_column }
    }

    pub open spec fn end_pos(self) -> Position {
        Position { line: self.end_line, column: self.end_column }
    }

    /// A well-formed span does not end before it starts.
    pub open spec fn well_formed(self) -> bool {
        pos_le(self.start_pos(), self.end_pos())
    }

    /// The position `p` lies in `[start, end)`.
    pub open spec fn holds(self, p: Position) -> bool {
        pos_le(self.start_pos(), p) && pos_lt(p, self.end_pos())
    }

    pub fn start(&self) -> (r: Position)
        ensures
            r == self.start_pos(),
    {
        Position { line: self.start_line, column: self.start_column }
    }

    pub fn end(&self) -> (r: Position)
        ensures
            r == self.end_pos(),
    {
        Position { line: self.end_line, column: self.end_column }
    }
}

/// For `a` starting no later than `b`: `b` starts at or before the end of `a`,
/// so the two are overlapping or adjacent.
pub open spec fn touches(a: CodeRegion, b: CodeRegion) -> bool {
    pos_le(b.start_pos(), a.end_pos())
}

/// `a` fully contains `b`.
pub open spec fn covers(a: CodeRegion, b: CodeRegion) -> bool {
    pos_le(a.start_pos(), b.start_pos()) && pos_le(b.end_pos(), a.end_pos())
}

/// The smallest span holding both `a` and `b`, in the file of `a`.
pub open spec fn joined(a: CodeRegion, b: CodeRegion) -> CodeRegion {
    let s = pos_min(a.start_pos(), b.start_pos());
    let e = pos_max(a.end_pos(), b.end_pos());
    CodeRegion {
        file_path: a.file_path,
        start_line: s.line,
        start_column: s.column,
        end_line: e.line,
        end_column: e.column,
    }
}

/// Whether `b` (starting no earlier than `a`) overlaps or abuts `a`.
pub fn can_merge(a: &CodeRegion, b: &CodeRegion) -> (r: bool)
    ensures
        r == touches(*a, *b),
{
    b.start().le(&a.end())
}

/// Whether `a` fully contains `b`.
pub fn is_fully_covered(a: &CodeRegion, b: &CodeRegion) -> (r: bool)
    ensures
        r == covers(*a, *b),
{
    a.start().le(&b.start()) && b.end().le(&a.end())
}

/// Grows `a` to the smallest span holding both `a` and `b`; the file of `a` stays.
pub fn merge_regions_in_place(a: &mut CodeRegion, b: &CodeRegion)
    ensures
        *final(a) == joined(*old(a), *b),
{
    let a_start = a.start();
    let b_start = b.start();
    let a_end = a.end();
    let b_end = b.end();
    let s = if a_start.le(&b_start) { a_start } else { b_start };
    let e = if a_end.le(&b_end) { b_end } else { a_end };
    a.start_line = s.line;
    a.start_column = s.column;
    a.end_line = e.line;
    a.end_column = e.column;
}

} // verus!
