//! Argument lists for the runs of the program under analysis.

use vstd::prelude::*;
use vstd::string::StringExecFns;
use crate::config::RunningOptions;
use crate::error::GetCovError;

verus! {

/// Stands, in the program's arguments, for the path of an input file.
pub const INPUT_PLACEHOLDER: &'static str = "@@";

pub open spec fn has_placeholder(args: Seq<String>) -> bool {
    exists|i: int| 0 <= i < args.len() && (#[trigger] args[i])@ == INPUT_PLACEHOLDER@
}

/// The arguments for a run on input file `f`.
pub open spec fn args_with_file(args: Seq<String>, f: Seq<char>) -> Seq<Seq<char>> {
    if has_placeholder(args) {
        args.map_values(|a: String| if a@ == INPUT_PLACEHOLDER@ { f } else { a@ })
    } else {
        args.map_values(|a: String| a@).push(f)
    }
}

pub open spec fn views(v: Seq<String>) -> Seq<Seq<char>> {
    v.map_values(|s: String| s@)
}

/// The arguments for a run on one input file: each placeholder replaced by
/// the file's path or, when there is none, the path appended.
pub fn create_args_with_file(args: &Vec<String>, file_path: &String) -> (r: Vec<String>)
    ensures
        has_placeholder(args@) ==> r@.len() == args@.len(),
        has_placeholder(args@) ==> forall|i: int|
            0 <= i < args@.len() ==> (#[trigger] r@[i])@ == (if args@[i]@ == INPUT_PLACEHOLDER@ {
                file_path@
            } else {
                args@[i]@
            }),
        !has_placeholder(args@) ==> r@.len() == args@.len() + 1,
        !has_placeholder(args@) ==> forall|i: int| 0 <= i < args@.len() ==> (#[trigger] r@[i])@ == args@[i]@,
        !has_placeholder(args@) ==> r@[args@.len() as int]@ == file_path@,
        views(r@) == args_with_file(args@, file_path@),
{
    let placeholder = <String as StringExecFns>::from_str(INPUT_PLACEHOLDER);
    let mut found = false;
    let mut i: usize = 0;
    while i < args.len()
        invariant
            i <= args@.len(),
            placeholder@ == INPUT_PLACEHOLDER@,
            found <==> exists|k: int| 0 <= k < i && (#[trigger] args@[k])@ == INPUT_PLACEHOLDER@,
        decreases args@.len() - i,
    {
        if args[i] == placeholder {
            found = true;
        }
        i += 1;
    }
    let mut out: Vec<String> = Vec::new();
    let mut j: usize = 0;
    while j < args.len()
        invariant
            j <= args@.len(),
            placeholder@ == INPUT_PLACEHOLDER@,
            found == has_placeholder(args@),
            out@.len() == j,
            found ==> forall|k: int|
                0 <= k < j ==> (#[trigger] out@[k])@ == (if args@[k]@ == INPUT_PLACEHOLDER@ {
                    file_path@
                } else {
                    args@[k]@
                }),
            !found ==> forall|k: int| 0 <= k < j ==> (#[trigger] out@[k])@ == args@[k]@,
        decreases args@.len() - j,
    {
        if found && args[j] == placeholder {
            out.push(file_path.clone());
        } else {
            out.push(args[j].clone());
        }
        j += 1;
    }
    if !found {
        out.push(file_path.clone());
    }
    assert(views(out@) =~= args_with_file(args@, file_path@));
    out
}

/// One run per input file, each with the arguments for that file; no input
/// file is an argument error.
pub fn options_from_input_files(binary: &String, args: &Vec<String>, input_files: &Vec<String>) -> (r:
    Result<RunningOptions, GetCovError>)
    ensures
        r is Ok <==> input_files@.len() > 0,
        r matches Ok(o) ==> (o.binary@ == binary@ && o.args_list@.len() == input_files@.len()
            && forall|i: int|
            0 <= i < input_files@.len() ==> views((#[trigger] o.args_list@[i])@) == args_with_file(
                args@,
                input_files@[i]@,
            )),
        r matches Err(e) ==> (e matches GetCovError::ArgParse(m) && m@
            == "No input files found in the directory"@),
{
    let mut args_list: Vec<Vec<String>> = Vec::new();
    let mut i: usize = 0;
    while i < input_files.len()
        invariant
            i <= input_files@.len(),
            args_list@.len() == i,
            forall|k: int|
                0 <= k < i ==> views((#[trigger] args_list@[k])@) == args_with_file(
                    args@,
                    input_files@[k]@,
                ),
        decreases input_files@.len() - i,
    {
        args_list.push(create_args_with_file(args, &input_files[i]));
        i += 1;
    }
    if args_list.len() == 0 {
        return Err(
            GetCovError::ArgParse(
                <String as StringExecFns>::from_str("No input files found in the directory"),
            ),
        );
    }
    Ok(RunningOptions { binary: binary.clone(), args_list })
}

/// Splits the command line of the program under analysis into the program
/// and its arguments; an empty command line is an argument error.
pub fn parse_executable(executable: &Vec<String>) -> (r: Result<(String, Vec<String>), GetCovError>)
    ensures
        r is Ok <==> executable@.len() > 0,
        r matches Ok(p) ==> (p.0@ == executable@[0]@ && p.1@.len() == executable@.len() - 1
            && forall|i: int| 0 <= i < p.1@.len() ==> (#[trigger] p.1@[i])@ == executable@[i + 1]@),
        r matches Err(e) ==> (e matches GetCovError::ArgParse(m) && m@ == "No executable provided"@),
{
    if executable.len() == 0 {
        return Err(GetCovError::ArgParse(<String as StringExecFns>::from_str("No executable provided")));
    }
    let mut rest: Vec<String> = Vec::new();
    let mut i: usize = 1;
    while i < executable.len()
        invariant
            1 <= i <= executable@.len(),
            rest@.len() == i - 1,
            forall|k: int| 0 <= k < rest@.len() ==> (#[trigger] rest@[k])@ == executable@[k + 1]@,
        decreases executable@.len() - i,
    {
        rest.push(executable[i].clone());
        i += 1;
    }
    Ok((executable[0].clone(), rest))
}

} // verus!
