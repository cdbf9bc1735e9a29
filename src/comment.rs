//! The comment heuristic: a span whose source text holds only comments and
//! whitespace is noise, not uncovered code.

use vstd::prelude::*;
use crate::analyzer::PartiallyCoveredFunction;
use crate::region::CodeRegion;

verus! {

/// A block comment; embedded `*` that do not close it are allowed.
pub const BLOCK_COMMENT: &'static str = r"/\*[^*]*\*+(?:[^/*][^*]*\*+)*/";

/// A line comment, through the end of its line or of the text.
pub const LINE_COMMENT: &'static str = r"//[^\n]*(?:\n|$)";

/// `text` with every match of the regular expression `pattern` removed.
pub uninterp spec fn regex_erased(pattern: Seq<char>, text: Seq<char>) -> Seq<char>;

/// A character with the Unicode `White_Space` property.
pub open spec fn is_white_space(c: char) -> bool {
    let u = c as u32;
    ||| 0x9 <= u <= 0xd
    ||| u == 0x20
    ||| u == 0x85
    ||| u == 0xa0
    ||| u == 0x1680
    ||| 0x2000 <= u <= 0x200a
    ||| u == 0x2028
    ||| u == 0x2029
    ||| u == 0x202f
    ||| u == 0x205f
    ||| u == 0x3000
}

/// `s` without its leading whitespace.
pub open spec fn strip_start(s: Seq<char>) -> Seq<char>
    decreases s.len(),
{
    if s.len() > 0 && is_white_space(s[0]) {
        strip_start(s.drop_first())
    } else {
        s
    }
}

/// `s` without its trailing whitespace.
pub open spec fn strip_end(s: Seq<char>) -> Seq<char>
    decreases s.len(),
{
    if s.len() > 0 && is_white_space(s.last()) {
        strip_end(s.drop_last())
    } else {
        s
    }
}

/// `s` without its leading and trailing whitespace.
pub open spec fn trimmed(s: Seq<char>) -> Seq<char> {
    strip_end(strip_start(s))
}

/// Relies on `regex::Regex::new` and `Regex::replace_all`: compiles `pattern`
/// and removes each of its matches from `text`; `None` when it does not
/// compile, which the two comment patterns always do.
#[verifier::external_body]
fn erase_matches(pattern: &str, text: &str) -> (r: Option<String>)
    ensures
        r matches Some(s) ==> s@ == regex_erased(pattern@, text@),
        pattern@ == BLOCK_COMMENT@ || pattern@ == LINE_COMMENT@ ==> r is Some,
{
    match regex::Regex::new(pattern) {
        Ok(re) => Some(re.replace_all(text, "").into_owned()),
        Err(_) => None,
    }
}

/// Relies on `str::trim`: leading and trailing characters with the Unicode
/// `White_Space` property removed.
#[verifier::external_body]
fn trim_whitespace(s: &str) -> (r: &str)
    ensures
        r@ == trimmed(s@),
{
    s.trim()
}

/// The text is blank once block comments and then line comments are removed.
pub open spec fn pure_comment_text(s: Seq<char>) -> bool {
    trimmed(regex_erased(LINE_COMMENT@, regex_erased(BLOCK_COMMENT@, s))).len() == 0
}

/// Whether `erased`, text with its comments removed, is blank; no text counts
/// as not blank.
pub fn blank_after_erasing(erased: &Option<String>) -> (r: bool)
    ensures
        r == (erased matches Some(s) && trimmed(s@).len() == 0),
{
    match erased {
        Some(s) => trim_whitespace(s.as_str()).is_empty(),
        None => false,
    }
}

/// Whether `snippet` holds nothing but comments and whitespace.
pub fn is_pure_comment(snippet: &str) -> (r: bool)
    ensures
        r == pure_comment_text(snippet@),
{
    match erase_matches(BLOCK_COMMENT, snippet) {
        Some(without_blocks) => {
            let without_lines = erase_matches(LINE_COMMENT, without_blocks.as_str());
            blank_after_erasing(&without_lines)
        },
        None => false,
    }
}

/// The spans of `regions` whose flag in `drop` is not set, in order.
pub open spec fn retained(regions: Seq<CodeRegion>, drop: Seq<bool>) -> Seq<CodeRegion>
    decreases regions.len(),
{
    if regions.len() == 0 {
        regions
    } else {
        let rest = retained(regions.drop_last(), drop);
        if drop[regions.len() - 1] {
            rest
        } else {
            rest.push(regions.last())
        }
    }
}

/// Keeps the spans whose flag in `drop` is not set.
pub fn retain_regions(regions: &Vec<CodeRegion>, drop: &Vec<bool>) -> (r: Vec<CodeRegion>)
    requires
        drop@.len() == regions@.len(),
    ensures
        r@ == retained(regions@, drop@),
{
    let mut out: Vec<CodeRegion> = Vec::new();
    let mut i: usize = 0;
    while i < regions.len()
        invariant
            i <= regions@.len(),
            drop@.len() == regions@.len(),
            out@ == retained(regions@.subrange(0, i as int), drop@),
        decreases regions@.len() - i,
    {
        proof {
            let s1 = regions@.subrange(0, i as int + 1);
            assert(s1.drop_last() =~= regions@.subrange(0, i as int));
            assert(s1.last() == regions@[i as int]);
        }
        if !drop[i] {
            out.push(crate::merge::copy_region(&regions[i]));
        }
        i += 1;
    }
    assert(regions@.subrange(0, regions@.len() as int) =~= regions@);
    out
}

/// The snippet was read and holds only comments and whitespace.
pub open spec fn is_comment_snippet(o: Option<String>) -> bool {
    o matches Some(s) && pure_comment_text(s@)
}

/// For each snippet, whether it holds only comments; a missing snippet (text
/// that could not be read) is never flagged.
pub open spec fn comment_mask(snippets: Seq<Option<String>>) -> Seq<bool> {
    snippets.map_values(|o: Option<String>| is_comment_snippet(o))
}

/// For each snippet, whether it holds only comments; a missing snippet (text
/// that could not be read) is never flagged.
pub fn comment_flags(snippets: &Vec<Option<String>>) -> (r: Vec<bool>)
    ensures
        r@ == comment_mask(snippets@),
{
    let mut out: Vec<bool> = Vec::new();
    let mut i: usize = 0;
    while i < snippets.len()
        invariant
            i <= snippets@.len(),
            out@.len() == i,
            forall|k: int| 0 <= k < i ==> #[trigger] out@[k] == is_comment_snippet(snippets@[k]),
        decreases snippets@.len() - i,
    {
        let flag = match &snippets[i] {
            Some(s) => is_pure_comment(s.as_str()),
            None => false,
        };
        out.push(flag);
        i += 1;
    }
    assert(out@ =~= comment_mask(snippets@));
    out
}

impl PartiallyCoveredFunction {
    /// Drops each uncovered span whose source text (`snippets`, one per span,
    /// `None` where it could not be read) holds only comments; the others stay.
    pub fn drop_pure_comments(&mut self, snippets: &Vec<Option<String>>)
        requires
            snippets@.len() == old(self).uncovered_regions@.len(),
        ensures
            final(self).function_name == old(self).function_name,
            final(self).file_path == old(self).file_path,
            final(self).partially_covered_predicates == old(self).partially_covered_predicates,
            final(self).whole_function == old(self).whole_function,
            final(self).uncovered_regions@ == retained(
                old(self).uncovered_regions@,
                comment_mask(snippets@),
            ),
    {
        let flags = comment_flags(snippets);
        let kept = retain_regions(&self.uncovered_regions, &flags);
        self.uncovered_regions = kept;
    }
}

} // verus!
