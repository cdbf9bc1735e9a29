//! Whether a binary carries LLVM coverage instrumentation.

use vstd::prelude::*;
use vstd::string::StringExecFns;
use crate::error::GetCovError;

verus! {

/// The section that instrumented binaries carry their coverage mapping in.
pub const COVMAP_SECTION: &'static str = "__llvm_covmap";

/// How `contents` parses as an object file: `None` when it does not parse;
/// `Some(Some(names))` for an ELF file, with its section names (each `None`
/// where the string table lacks it); `Some(None)` for another format.
pub uninterp spec fn elf_section_names(contents: Seq<u8>) -> Option<Option<Seq<Option<Seq<char>>>>>;

pub open spec fn name_view(n: Option<String>) -> Option<Seq<char>> {
    match n {
        Some(s) => Some(s@),
        None => None,
    }
}

pub open spec fn name_views(v: Option<Vec<Option<String>>>) -> Option<Seq<Option<Seq<char>>>> {
    match v {
        Some(names) => Some(names@.map_values(|n: Option<String>| name_view(n))),
        None => None,
    }
}

/// Relies on `goblin::Object::parse` and the ELF section-header string table
/// (`Strtab::get_at`): the name of each section of an ELF file.
#[verifier::external_body]
fn section_names(contents: &[u8]) -> (r: Result<Option<Vec<Option<String>>>, goblin::error::Error>)
    ensures
        r is Err <==> elf_section_names(contents@) is None,
        r matches Ok(v) ==> elf_section_names(contents@) == Some(name_views(v)),
{
    match goblin::Object::parse(contents) {
        Ok(goblin::Object::Elf(elf)) => {
            let mut names = Vec::new();
            for section in elf.section_headers.iter() {
                names.push(elf.shdr_strtab.get_at(section.sh_name).map(|n| n.to_string()));
            }
            Ok(Some(names))
        },
        Ok(_) => Ok(None),
        Err(e) => Err(e),
    }
}

/// `needle` occurs in `hay`.
pub open spec fn has_infix(hay: Seq<char>, needle: Seq<char>) -> bool {
    exists|i: int| 0 <= i <= hay.len() - needle.len() && #[trigger] hay.subrange(i, i + needle.len()) == needle
}

/// Relies on `str::contains`: whether `needle` occurs in `hay`.
#[verifier::external_body]
fn contains_text(hay: &str, needle: &str) -> (r: bool)
    ensures
        r == has_infix(hay@, needle@),
{
    hay.contains(needle)
}

/// Some named section's name contains the coverage-mapping section name.
pub open spec fn has_covmap(names: Seq<Option<Seq<char>>>) -> bool {
    exists|i: int|
        0 <= i < names.len() && (#[trigger] names[i] matches Some(n) && has_infix(
            n,
            COVMAP_SECTION@,
        ))
}

/// Whether one of the section names contains the coverage-mapping section name.
pub fn contains_llvm_covmap(names: &Vec<Option<String>>) -> (r: bool)
    ensures
        r == has_covmap(name_views(Some(*names))->0),
{
    let ghost views = name_views(Some(*names))->0;
    let mut i: usize = 0;
    while i < names.len()
        invariant
            i <= names@.len(),
            views == name_views(Some(*names))->0,
            views.len() == names@.len(),
            forall|k: int| 0 <= k < i ==> !(#[trigger] views[k] matches Some(n) && has_infix(
                n,
                COVMAP_SECTION@,
            )),
        decreases names@.len() - i,
    {
        assert(views[i as int] == name_view(names@[i as int]));
        if let Some(name) = &names[i] {
            if contains_text(name.as_str(), COVMAP_SECTION) {
                return true;
            }
        }
        i += 1;
    }
    false
}

/// The message for a binary without coverage instrumentation.
pub open spec fn missing_covmap_message(binary: Seq<char>) -> Seq<char> {
    "Binary '"@ + binary + "' does not contain LLVM coverage instrumentation."@
}

/// The verdict on a binary given how its bytes parsed (`parsed`, as
/// `section_names` gives it): success when it is an ELF file with a
/// coverage-mapping section; a parse error is passed on unchanged.
pub fn covmap_verdict(binary: &str, parsed: Result<Option<Vec<Option<String>>>, goblin::error::Error>) -> (r:
    Result<(), GetCovError>)
    ensures
        parsed matches Err(e) ==> r == Err::<(), GetCovError>(GetCovError::Goblin(e)),
        parsed matches Ok(v) ==> (r is Ok <==> (v matches Some(names) && has_covmap(
            name_views(Some(names))->0,
        ))),
        parsed is Ok && r is Err ==> (r matches Err(GetCovError::Coverage(m)) && m@
            == missing_covmap_message(binary@)),
{
    match parsed {
        Err(e) => Err(GetCovError::Goblin(e)),
        Ok(None) => Err(missing_covmap(binary)),
        Ok(Some(names)) => {
            if contains_llvm_covmap(&names) {
                Ok(())
            } else {
                Err(missing_covmap(binary))
            }
        },
    }
}

/// Checks that `binary_contents`, the bytes of the binary `binary`, form an
/// ELF file with a coverage-mapping section; otherwise the error is goblin's
/// when the bytes do not parse, else a coverage error naming the binary.
pub fn check_covmap(binary: &str, binary_contents: &[u8]) -> (r: Result<(), GetCovError>)
    ensures
        r is Ok <==> (elf_section_names(binary_contents@) matches Some(Some(names)) && has_covmap(
            names,
        )),
        (r matches Err(e) && e is Goblin) <==> elf_section_names(binary_contents@) is None,
        r matches Err(e) ==> (e is Goblin || (e matches GetCovError::Coverage(m) && m@
            == missing_covmap_message(binary@))),
{
    let parsed = section_names(binary_contents);
    covmap_verdict(binary, parsed)
}

fn missing_covmap(binary: &str) -> (e: GetCovError)
    ensures
        e matches GetCovError::Coverage(m) && m@ == missing_covmap_message(binary@),
{
    let msg = <String as StringExecFns>::from_str("Binary '").concat(binary).concat(
        "' does not contain LLVM coverage instrumentation.",
    );
    GetCovError::Coverage(msg)
}

} // verus!
