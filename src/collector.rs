//! Decisions taken while collecting coverage: which raw profile to merge and
//! what `llvm-cov export` produced.

use vstd::prelude::*;
use vstd::string::StringExecFns;
use vstd::utf8::{valid_utf8, decode_utf8};
use crate::error::GetCovError;

verus! {

/// The exported coverage report and the merged profile it came from.
#[derive(Debug)]
pub struct CoverageResult {
    pub json: String,
    pub profdata_path: String,
}

/// `s` starts with `p`.
pub open spec fn has_prefix(s: Seq<char>, p: Seq<char>) -> bool {
    p.len() <= s.len() && s.subrange(0, p.len() as int) == p
}

/// Relies on `str::starts_with`: whether `s` starts with `p`.
#[verifier::external_body]
fn starts_with(s: &str, p: &str) -> (r: bool)
    ensures
        r == has_prefix(s@, p@),
{
    s.starts_with(p)
}

/// Relies on `String::from_utf8`: the text of `bytes` when they are valid UTF-8.
#[verifier::external_body]
fn utf8_text(bytes: Vec<u8>) -> (r: Option<String>)
    ensures
        r is Some <==> valid_utf8(bytes@),
        r matches Some(s) ==> s@ == decode_utf8(bytes@),
{
    String::from_utf8(bytes).ok()
}

/// The names of `names` that start with `prefix`, in order.
pub open spec fn with_prefix(names: Seq<String>, prefix: Seq<char>) -> Seq<Seq<char>>
    decreases names.len(),
{
    if names.len() == 0 {
        Seq::empty()
    } else {
        let rest = with_prefix(names.drop_last(), prefix);
        if has_prefix(names.last()@, prefix) {
            rest.push(names.last()@)
        } else {
            rest
        }
    }
}

/// The file names that start with `prefix`: the raw profiles of one collection.
pub fn profraw_names(names: &Vec<String>, prefix: &str) -> (r: Vec<String>)
    ensures
        r@.map_values(|s: String| s@) == with_prefix(names@, prefix@),
{
    let mut out: Vec<String> = Vec::new();
    let mut i: usize = 0;
    while i < names.len()
        invariant
            i <= names@.len(),
            out@.map_values(|s: String| s@) == with_prefix(names@.subrange(0, i as int), prefix@),
        decreases names@.len() - i,
    {
        proof {
            let s1 = names@.subrange(0, i as int + 1);
            assert(s1.drop_last() =~= names@.subrange(0, i as int));
            assert(s1.last() == names@[i as int]);
        }
        let ghost prev = out@.map_values(|s: String| s@);
        if starts_with(names[i].as_str(), prefix) {
            out.push(names[i].clone());
            assert(out@.map_values(|s: String| s@) =~= prev.push(names@[i as int]@));
        }
        i += 1;
    }
    assert(names@.subrange(0, names@.len() as int) =~= names@);
    out
}

/// The decimal digit `d` (`0 <= d < 10`).
pub open spec fn digit_char(d: int) -> char {
    if d == 0 {
        '0'
    } else if d == 1 {
        '1'
    } else if d == 2 {
        '2'
    } else if d == 3 {
        '3'
    } else if d == 4 {
        '4'
    } else if d == 5 {
        '5'
    } else if d == 6 {
        '6'
    } else if d == 7 {
        '7'
    } else if d == 8 {
        '8'
    } else {
        '9'
    }
}

/// `n` written in decimal, without leading zeros.
pub open spec fn decimal(n: nat) -> Seq<char>
    decreases n,
{
    if n < 10 {
        seq![digit_char(n as int)]
    } else {
        decimal(n / 10) + seq![digit_char((n % 10) as int)]
    }
}

fn digit_text(d: u64) -> (r: &'static str)
    requires
        d < 10,
    ensures
        r@ == seq![digit_char(d as int)],
{
    proof {
        reveal_strlit("0");
        reveal_strlit("1");
        reveal_strlit("2");
        reveal_strlit("3");
        reveal_strlit("4");
        reveal_strlit("5");
        reveal_strlit("6");
        reveal_strlit("7");
        reveal_strlit("8");
        reveal_strlit("9");
    }
    if d == 0 {
        "0"
    } else if d == 1 {
        "1"
    } else if d == 2 {
        "2"
    } else if d == 3 {
        "3"
    } else if d == 4 {
        "4"
    } else if d == 5 {
        "5"
    } else if d == 6 {
        "6"
    } else if d == 7 {
        "7"
    } else if d == 8 {
        "8"
    } else {
        "9"
    }
}

/// `n` written in decimal.
pub fn decimal_text(n: u64) -> (r: String)
    ensures
        r@ == decimal(n as nat),
    decreases n,
{
    if n < 10 {
        <String as StringExecFns>::from_str(digit_text(n))
    } else {
        decimal_text(n / 10).concat(digit_text(n % 10))
    }
}

/// The one raw profile of a collection; none or several is a coverage error
/// that gives their number.
pub fn single_profraw(files: Vec<String>) -> (r: Result<String, GetCovError>)
    ensures
        r is Ok <==> files@.len() == 1,
        r matches Ok(f) ==> f == files@[0],
        r matches Err(e) ==> (e matches GetCovError::Coverage(m) && m@
            == "Expected 1 profraw file, found "@ + decimal(files@.len())),
{
    if files.len() != 1 {
        let count = decimal_text(files.len() as u64);
        let msg = <String as StringExecFns>::from_str("Expected 1 profraw file, found ").concat(
            count.as_str(),
        );
        return Err(GetCovError::Coverage(msg));
    }
    Ok(files[0].clone())
}

/// The report that `llvm-cov export` wrote: its standard output as text when it
/// succeeded, else an error carrying what it wrote to standard error.
pub fn report_json_from_output(success: bool, stdout: Vec<u8>, stderr_text: String) -> (r: Result<
    String,
    GetCovError,
>)
    ensures
        !success ==> (r matches Err(GetCovError::Coverage(m)) && m == stderr_text),
        success ==> (r is Ok <==> valid_utf8(stdout@)),
        r matches Ok(s) ==> s@ == decode_utf8(stdout@),
        success && r is Err ==> (r matches Err(GetCovError::LlvmCovParse(m)) && m@
            == "llvm-cov output is not valid UTF-8"@),
{
    if !success {
        return Err(GetCovError::Coverage(stderr_text));
    }
    match utf8_text(stdout) {
        Some(s) => Ok(s),
        None => Err(
            GetCovError::LlvmCovParse(
                <String as StringExecFns>::from_str("llvm-cov output is not valid UTF-8"),
            ),
        ),
    }
}

} // verus!
