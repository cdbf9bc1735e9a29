//! The function analysis: for every function of a report, its partially
//! covered predicates and its merged never-executed code spans.

use vstd::prelude::*;
use crate::classify::{
    PartiallyCoveredPredicate, get_partially_covered_predicates, partial_predicates,
    partials_attributable,
};
use crate::error::GetCovError;
use crate::merge::{merged, merge_uncovered_regions};
use crate::region::CodeRegion;
use crate::report::{Coverage, FunctionRecord, ProgramReport, RegionKind, SourceRegion};

verus! {

/// A called function with partially covered predicates, where it lies, its
/// never-executed code spans, and the span of its first code region.
#[derive(Debug)]
pub struct PartiallyCoveredFunction {
    pub function_name: String,
    pub file_path: String,
    pub partially_covered_predicates: Vec<PartiallyCoveredPredicate>,
    pub uncovered_regions: Vec<CodeRegion>,
    pub whole_function: Option<CodeRegion>,
}

/// The analysis of a whole report.
#[derive(Debug)]
pub struct Output {
    pub coverage: Coverage,
    pub uncovered_functions: Vec<PartiallyCoveredFunction>,
    /// Names of the functions left out because an entry named no file of theirs.
    pub malformed_functions: Vec<String>,
}

/// Index of the first code region of `rs`, or `rs.len()` when there is none.
pub open spec fn first_code(rs: Seq<SourceRegion>) -> int
    decreases rs.len(),
{
    if rs.len() == 0 {
        0
    } else if rs[0].kind == RegionKind::Code {
        0
    } else {
        1 + first_code(rs.drop_first())
    }
}

pub open spec fn is_uncovered_code(r: SourceRegion) -> bool {
    r.kind == RegionKind::Code && r.execution_count == 0
}

/// The span of region `r`, in the file that its index names.
pub open spec fn span_of(r: SourceRegion, files: Seq<String>) -> CodeRegion {
    CodeRegion {
        file_path: files[r.file_id as int],
        start_line: r.line_start,
        start_column: r.column_start,
        end_line: r.line_end,
        end_column: r.column_end,
    }
}

/// The spans of the never-executed code regions of `rs`, in order.
pub open spec fn uncovered_spans(rs: Seq<SourceRegion>, files: Seq<String>) -> Seq<CodeRegion>
    decreases rs.len(),
{
    if rs.len() == 0 {
        Seq::empty()
    } else {
        let rest = uncovered_spans(rs.drop_last(), files);
        if is_uncovered_code(rs.last()) {
            rest.push(span_of(rs.last(), files))
        } else {
            rest
        }
    }
}

/// Every never-executed code region of `rs` names a file of `files`.
pub open spec fn uncovered_attributable(rs: Seq<SourceRegion>, files: Seq<String>) -> bool {
    forall|i: int|
        0 <= i < rs.len() && is_uncovered_code(#[trigger] rs[i]) ==> rs[i].file_id < files.len()
}

/// The function is called, has a partially covered predicate and a code region.
pub open spec fn reportable(f: FunctionRecord) -> bool {
    &&& f.count > 0
    &&& partial_predicates(f.branches@, f.filenames@).len() > 0
    &&& first_code(f.regions@) < f.regions@.len()
}

/// The analysis of the function needs a file index that its file list lacks.
pub open spec fn malformed(f: FunctionRecord) -> bool {
    &&& f.count > 0
    &&& {
        ||| !partials_attributable(f.branches@, f.filenames@)
        ||| reportable(f) && !(f.regions@[first_code(f.regions@)].file_id < f.filenames@.len()
            && uncovered_attributable(f.regions@, f.filenames@))
    }
}

/// `p` is the analysis of the reportable function `f`.
pub open spec fn describes(p: PartiallyCoveredFunction, f: FunctionRecord) -> bool {
    let first = f.regions@[first_code(f.regions@)];
    &&& p.function_name@ == f.name@
    &&& p.file_path == f.filenames@[first.file_id as int]
    &&& p.partially_covered_predicates@ == partial_predicates(f.branches@, f.filenames@)
    &&& p.uncovered_regions@ == merged(uncovered_spans(f.regions@, f.filenames@))
    &&& p.whole_function == Some(span_of(first, f.filenames@))
}

/// The functions of `fs` that the analysis reports, in order.
pub open spec fn reported(fs: Seq<FunctionRecord>) -> Seq<FunctionRecord>
    decreases fs.len(),
{
    if fs.len() == 0 {
        fs
    } else {
        let rest = reported(fs.drop_last());
        if reportable(fs.last()) && !malformed(fs.last()) {
            rest.push(fs.last())
        } else {
            rest
        }
    }
}

/// The functions of `fs` left out as malformed, in order.
pub open spec fn malformed_in(fs: Seq<FunctionRecord>) -> Seq<FunctionRecord>
    decreases fs.len(),
{
    if fs.len() == 0 {
        fs
    } else {
        let rest = malformed_in(fs.drop_last());
        if malformed(fs.last()) {
            rest.push(fs.last())
        } else {
            rest
        }
    }
}

/// `o` is the analysis of report `report`: its summary, the reported
/// functions in order, and the names of the malformed ones in order.
pub open spec fn analysis_of(o: Output, report: ProgramReport) -> bool {
    &&& o.coverage == report.summary
    &&& o.uncovered_functions@.len() == reported(report.functions@).len()
    &&& forall|k: int|
        0 <= k < o.uncovered_functions@.len() ==> describes(
            #[trigger] o.uncovered_functions@[k],
            reported(report.functions@)[k],
        )
    &&& o.malformed_functions@.len() == malformed_in(report.functions@).len()
    &&& forall|k: int|
        0 <= k < o.malformed_functions@.len() ==> (#[trigger] o.malformed_functions@[k])@
            == malformed_in(report.functions@)[k].name@
}

/// Index of the first code region, if any.
fn find_first_code(rs: &Vec<SourceRegion>) -> (r: usize)
    ensures
        r as int == first_code(rs@),
        r <= rs@.len(),
{
    let mut i: usize = 0;
    assert(rs@.subrange(0, rs@.len() as int) =~= rs@);
    while i < rs.len()
        invariant
            i <= rs@.len(),
            first_code(rs@) == i + first_code(rs@.subrange(i as int, rs@.len() as int)),
        decreases rs@.len() - i,
    {
        let ghost rest = rs@.subrange(i as int, rs@.len() as int);
        assert(rest[0] == rs@[i as int]);
        if rs[i].kind == RegionKind::Code {
            return i;
        }
        assert(rest.drop_first() =~= rs@.subrange(i as int + 1, rs@.len() as int));
        i += 1;
    }
    assert(rs@.subrange(i as int, rs@.len() as int).len() == 0);
    i
}

/// The span of region `r` in the file that its index names.
fn region_span(r: &SourceRegion, files: &Vec<String>) -> (c: CodeRegion)
    requires
        r.file_id < files@.len(),
    ensures
        c == span_of(*r, files@),
{
    let n: usize = files.len();
    assert(r.file_id < n);
    CodeRegion {
        file_path: files[r.file_id as usize].clone(),
        start_line: r.line_start,
        start_column: r.column_start,
        end_line: r.line_end,
        end_column: r.column_end,
    }
}

/// The merged never-executed code spans of a function, or an error when one
/// of those regions names no file of the function.
pub fn get_uncovered_regions(function: &FunctionRecord) -> (r: Result<Vec<CodeRegion>, GetCovError>)
    ensures
        r is Ok <==> uncovered_attributable(function.regions@, function.filenames@),
        r matches Ok(v) ==> v@ == merged(uncovered_spans(function.regions@, function.filenames@)),
        r matches Err(e) ==> (e matches GetCovError::FileIndexOutOfRange(id) && id
            >= function.filenames@.len()),
{
    let rs = &function.regions;
    let files = &function.filenames;
    let mut spans: Vec<CodeRegion> = Vec::new();
    let mut i: usize = 0;
    while i < rs.len()
        invariant
            i <= rs@.len(),
            rs == &function.regions,
            files == &function.filenames,
            spans@ == uncovered_spans(rs@.subrange(0, i as int), files@),
            uncovered_attributable(rs@.subrange(0, i as int), files@),
        decreases rs@.len() - i,
    {
        let reg = rs[i];
        proof {
            let s1 = rs@.subrange(0, i as int + 1);
            assert(s1.drop_last() =~= rs@.subrange(0, i as int));
            assert(s1.last() == reg);
        }
        if reg.kind == RegionKind::Code && reg.execution_count == 0 {
            if reg.file_id >= files.len() as u64 {
                assert(is_uncovered_code(rs@[i as int]));
                return Err(GetCovError::FileIndexOutOfRange(reg.file_id));
            }
            spans.push(region_span(&reg, files));
        }
        proof {
            let s0 = rs@.subrange(0, i as int);
            let s1 = rs@.subrange(0, i as int + 1);
            assert forall|k: int| 0 <= k < s1.len() && is_uncovered_code(#[trigger] s1[k]) implies s1[k].file_id
                < files@.len() by {
                if k < i {
                    assert(s1[k] == s0[k]);
                }
            }
        }
        i += 1;
    }
    assert(rs@.subrange(0, rs@.len() as int) =~= rs@);
    Ok(merge_uncovered_regions(spans))
}

/// The analysis of one function: `Ok(None)` when it is not reported (never
/// called, no partially covered predicate, or no code region), an error when
/// it is malformed, else its record.
pub fn analyze_function(function: &FunctionRecord) -> (r: Result<
    Option<PartiallyCoveredFunction>,
    GetCovError,
>)
    ensures
        r is Err <==> malformed(*function),
        (r matches Ok(Some(_))) <==> reportable(*function) && !malformed(*function),
        r matches Ok(Some(p)) ==> describes(p, *function),
{
    let predicates = match get_partially_covered_predicates(function) {
        Err(e) => return Err(e),
        Ok(None) => return Ok(None),
        Ok(Some(v)) => v,
    };
    if predicates.len() == 0 {
        return Ok(None);
    }
    let first = find_first_code(&function.regions);
    if first == function.regions.len() {
        return Ok(None);
    }
    let reg = function.regions[first];
    if reg.file_id >= function.filenames.len() as u64 {
        return Err(GetCovError::FileIndexOutOfRange(reg.file_id));
    }
    let uncovered_regions = match get_uncovered_regions(function) {
        Err(e) => return Err(e),
        Ok(v) => v,
    };
    let whole = region_span(&reg, &function.filenames);
    Ok(
        Some(
            PartiallyCoveredFunction {
                function_name: function.name.clone(),
                file_path: function.filenames[reg.file_id as usize].clone(),
                partially_covered_predicates: predicates,
                uncovered_regions,
                whole_function: Some(whole),
            },
        ),
    )
}

/// Analyses every function of the report: the reported ones in order, the
/// names of the malformed ones, and the report's summary as given.
pub fn get_uncovered(coverage_report: &ProgramReport) -> (r: Output)
    ensures
        analysis_of(r, *coverage_report),
{
    let fs = &coverage_report.functions;
    let mut found: Vec<PartiallyCoveredFunction> = Vec::new();
    let mut bad: Vec<String> = Vec::new();
    let mut i: usize = 0;
    while i < fs.len()
        invariant
            i <= fs@.len(),
            found@.len() == reported(fs@.subrange(0, i as int)).len(),
            forall|k: int|
                0 <= k < found@.len() ==> describes(
                    #[trigger] found@[k],
                    reported(fs@.subrange(0, i as int))[k],
                ),
            bad@.len() == malformed_in(fs@.subrange(0, i as int)).len(),
            forall|k: int|
                0 <= k < bad@.len() ==> (#[trigger] bad@[k])@ == malformed_in(
                    fs@.subrange(0, i as int),
                )[k].name@,
        decreases fs@.len() - i,
    {
        let ghost s0 = fs@.subrange(0, i as int);
        let ghost s1 = fs@.subrange(0, i as int + 1);
        proof {
            assert(s1.drop_last() =~= s0);
            assert(s1.last() == fs@[i as int]);
        }
        let f = &fs[i];
        match analyze_function(f) {
            Ok(Some(p)) => {
                found.push(p);
                proof {
                    assert forall|k: int| 0 <= k < found@.len() implies describes(
                        #[trigger] found@[k],
                        reported(s1)[k],
                    ) by {
                        if k < found@.len() - 1 {
                            assert(reported(s1)[k] == reported(s0)[k]);
                        }
                    }
                }
            },
            Ok(None) => {},
            Err(_) => {
                bad.push(f.name.clone());
                proof {
                    assert forall|k: int| 0 <= k < bad@.len() implies (#[trigger] bad@[k])@
                        == malformed_in(s1)[k].name@ by {
                        if k < bad@.len() - 1 {
                            assert(malformed_in(s1)[k] == malformed_in(s0)[k]);
                        }
                    }
                }
            },
        }
        i += 1;
    }
    assert(fs@.subrange(0, fs@.len() as int) =~= fs@);
    Output { coverage: coverage_report.summary, uncovered_functions: found, malformed_functions: bad }
}

/// A function that was never called is neither reported nor flagged as
/// malformed, whatever its branches' counts.
pub proof fn lemma_uncalled_function_suppressed(fs: Seq<FunctionRecord>)
    ensures
        forall|k: int| 0 <= k < reported(fs).len() ==> (#[trigger] reported(fs)[k]).count > 0,
        forall|k: int| 0 <= k < malformed_in(fs).len() ==> (#[trigger] malformed_in(fs)[k]).count > 0,
    decreases fs.len(),
{
    if fs.len() > 0 {
        lemma_uncalled_function_suppressed(fs.drop_last());
        let r = reported(fs);
        let rd = reported(fs.drop_last());
        assert forall|k: int| 0 <= k < r.len() implies (#[trigger] r[k]).count > 0 by {
            if k < rd.len() {
                assert(r[k] == rd[k]);
            }
        }
        let m = malformed_in(fs);
        let md = malformed_in(fs.drop_last());
        assert forall|k: int| 0 <= k < m.len() implies (#[trigger] m[k]).count > 0 by {
            if k < md.len() {
                assert(m[k] == md[k]);
            }
        }
    }
}

/// Finds the partially covered functions of a report.
#[derive(Debug)]
pub struct UncoveredAnalyzer {
    pub results: Option<Output>,
}

impl UncoveredAnalyzer {
    pub fn new() -> (r: Self)
        ensures
            r.results is None,
    {
        UncoveredAnalyzer { results: None }
    }

    /// Analyses the report and keeps the result.
    pub fn analyze(&mut self, coverage_report: &ProgramReport)
        ensures
            final(self).results matches Some(o) && analysis_of(o, *coverage_report),
    {
        self.results = Some(get_uncovered(coverage_report));
    }
}

/// Where a function lies: the span of its first region.
#[derive(Debug, Clone, PartialEq, Eq)]
pub struct FunctionInfo {
    pub name: String,
    pub file_path: String,
    pub start_line: u64,
    pub start_column: u64,
    pub end_line: u64,
    pub end_column: u64,
}

pub open spec fn info_of(f: FunctionRecord) -> FunctionInfo {
    let r = f.regions@[0];
    FunctionInfo {
        name: f.name,
        file_path: f.filenames@[r.file_id as int],
        start_line: r.line_start,
        start_column: r.column_start,
        end_line: r.line_end,
        end_column: r.column_end,
    }
}

/// The locations of the functions of `fs` that have a region, in order.
pub open spec fn function_infos(fs: Seq<FunctionRecord>) -> Seq<FunctionInfo>
    decreases fs.len(),
{
    if fs.len() == 0 {
        Seq::empty()
    } else {
        let rest = function_infos(fs.drop_last());
        if fs.last().regions@.len() > 0 {
            rest.push(info_of(fs.last()))
        } else {
            rest
        }
    }
}

/// The first region of every function of `fs` that has one names a file of that function.
pub open spec fn locatable(fs: Seq<FunctionRecord>) -> bool {
    forall|i: int|
        0 <= i < fs.len() && (#[trigger] fs[i]).regions@.len() > 0 ==> fs[i].regions@[0].file_id
            < fs[i].filenames@.len()
}

/// The location of every function of the report that has a region, or an
/// error when such a region names no file of its function.
pub fn get_all_functions(coverage_report: &ProgramReport) -> (r: Result<Vec<FunctionInfo>, GetCovError>)
    ensures
        r is Ok <==> locatable(coverage_report.functions@),
        r matches Ok(v) ==> v@ == function_infos(coverage_report.functions@),
        r matches Err(e) ==> e is FileIndexOutOfRange,
{
    let fs = &coverage_report.functions;
    let mut out: Vec<FunctionInfo> = Vec::new();
    let mut i: usize = 0;
    while i < fs.len()
        invariant
            i <= fs@.len(),
            fs == &coverage_report.functions,
            out@ == function_infos(fs@.subrange(0, i as int)),
            locatable(fs@.subrange(0, i as int)),
        decreases fs@.len() - i,
    {
        let ghost s0 = fs@.subrange(0, i as int);
        let ghost s1 = fs@.subrange(0, i as int + 1);
        proof {
            assert(s1.drop_last() =~= s0);
            assert(s1.last() == fs@[i as int]);
        }
        let f = &fs[i];
        if f.regions.len() > 0 {
            let r = f.regions[0];
            let n: usize = f.filenames.len();
            if r.file_id >= n as u64 {
                assert(!locatable(fs@)) by {
                    assert(fs@[i as int] == *f);
                    assert(f.regions@.len() > 0);
                    assert(f.regions@[0].file_id >= f.filenames@.len());
                }
                return Err(GetCovError::FileIndexOutOfRange(r.file_id));
            }
            out.push(
                FunctionInfo {
                    name: f.name.clone(),
                    file_path: f.filenames[r.file_id as usize].clone(),
                    start_line: r.line_start,
                    start_column: r.column_start,
                    end_line: r.line_end,
                    end_column: r.column_end,
                },
            );
        }
        proof {
            assert forall|k: int|
                0 <= k < s1.len() && (#[trigger] s1[k]).regions@.len() > 0 implies s1[k].regions@[0].file_id
                < s1[k].filenames@.len() by {
                if k < i {
                    assert(s1[k] == s0[k]);
                }
            }
        }
        i += 1;
    }
    assert(fs@.subrange(0, fs@.len() as int) =~= fs@);
    Ok(out)
}

/// Lists where every function of a report lies.
#[derive(Debug)]
pub struct ExtractFunctionsAnalyzer {
    pub results: Option<Vec<FunctionInfo>>,
}

impl ExtractFunctionsAnalyzer {
    pub fn new() -> (r: Self)
        ensures
            r.results is None,
    {
        ExtractFunctionsAnalyzer { results: None }
    }

    /// Collects the function locations and keeps them; on an error nothing changes.
    pub fn analyze(&mut self, coverage_report: &ProgramReport) -> (r: Result<(), GetCovError>)
        ensures
            r is Ok <==> locatable(coverage_report.functions@),
            r is Ok ==> (final(self).results matches Some(v) && v@ == function_infos(
                coverage_report.functions@,
            )),
            r is Err ==> final(self).results == old(self).results,
    {
        match get_all_functions(coverage_report) {
            Ok(v) => {
                self.results = Some(v);
                Ok(())
            },
            Err(e) => Err(e),
        }
    }
}

} // verus!
