use getcov::analyzer::{
    analyze_function, get_all_functions, get_uncovered, get_uncovered_regions,
    ExtractFunctionsAnalyzer, UncoveredAnalyzer,
};
use getcov::error::GetCovError;
use getcov::region::CodeRegion;
use getcov::report::{
    BranchRecord, Coverage, FunctionRecord, ProgramReport, RegionKind, SourceRegion,
};

fn region(sl: u64, sc: u64, el: u64, ec: u64, count: u64, file_id: u64, kind: RegionKind) -> SourceRegion {
    SourceRegion {
        line_start: sl,
        column_start: sc,
        line_end: el,
        column_end: ec,
        execution_count: count,
        file_id,
        expanded_file_id: 0,
        kind,
    }
}

fn branch(t: u64, f: u64) -> BranchRecord {
    BranchRecord {
        line_start: 2,
        column_start: 9,
        line_end: 2,
        column_end: 14,
        execution_count: t,
        false_execution_count: f,
        file_id: 0,
        expanded_file_id: 0,
    }
}

fn span(file: &str, sl: u64, sc: u64, el: u64, ec: u64) -> CodeRegion {
    CodeRegion {
        file_path: file.to_string(),
        start_line: sl,
        start_column: sc,
        end_line: el,
        end_column: ec,
    }
}

fn sample_function(name: &str, count: u64) -> FunctionRecord {
    FunctionRecord {
        name: name.to_string(),
        count,
        filenames: vec!["main.c".to_string(), "util.h".to_string()],
        regions: vec![
            region(1, 1, 9, 2, count, 0, RegionKind::Code),
            region(3, 5, 4, 6, 0, 0, RegionKind::Code),
            region(4, 6, 5, 2, 0, 0, RegionKind::Code),
            region(4, 1, 4, 3, 0, 0, RegionKind::Gap),
            region(7, 1, 7, 8, 0, 1, RegionKind::Code),
        ],
        branches: vec![branch(3, 0), branch(2, 2)],
    }
}

fn summary() -> Coverage {
    Coverage { covered_branches: 3, total_branches: 4, covered_functions: 1, total_functions: 2 }
}

#[test]
fn uncovered_regions_are_code_with_zero_count_merged() {
    let f = sample_function("f", 1);
    let regions = get_uncovered_regions(&f).unwrap();
    assert_eq!(regions, vec![span("main.c", 3, 5, 5, 2), span("util.h", 7, 1, 7, 8)]);
}

#[test]
fn partially_covered_function_is_reported() {
    let f = sample_function("f", 1);
    let p = analyze_function(&f).unwrap().unwrap();
    assert_eq!(p.function_name, "f");
    assert_eq!(p.file_path, "main.c");
    assert_eq!(p.partially_covered_predicates.len(), 1);
    assert_eq!(p.whole_function, Some(span("main.c", 1, 1, 9, 2)));
    assert_eq!(p.uncovered_regions.len(), 2);
}

#[test]
fn function_without_code_region_is_skipped() {
    let mut f = sample_function("f", 1);
    f.regions = vec![region(1, 1, 2, 1, 0, 0, RegionKind::Expansion)];
    assert!(matches!(analyze_function(&f), Ok(None)));
}

#[test]
fn fully_covered_branches_mean_no_report() {
    let mut f = sample_function("f", 1);
    f.branches = vec![branch(1, 1)];
    assert!(matches!(analyze_function(&f), Ok(None)));
}

#[test]
fn bad_region_file_index_is_an_error() {
    let mut f = sample_function("f", 1);
    f.regions.push(region(8, 1, 8, 2, 0, 5, RegionKind::Code));
    assert!(matches!(analyze_function(&f), Err(GetCovError::FileIndexOutOfRange(5))));
    assert!(get_uncovered_regions(&f).is_err());
}

#[test]
fn report_lists_called_partial_functions_and_malformed_ones() {
    let mut bad = sample_function("bad", 2);
    bad.branches.push(BranchRecord { file_id: 9, ..branch(0, 1) });
    let report = ProgramReport {
        functions: vec![sample_function("f", 1), sample_function("never", 0), bad],
        summary: summary(),
    };
    let out = get_uncovered(&report);
    assert_eq!(out.coverage, summary());
    assert_eq!(out.uncovered_functions.len(), 1);
    assert_eq!(out.uncovered_functions[0].function_name, "f");
    assert_eq!(out.malformed_functions, vec!["bad".to_string()]);
}

#[test]
fn uncalled_function_is_never_reported() {
    let report = ProgramReport { functions: vec![sample_function("never", 0)], summary: summary() };
    let out = get_uncovered(&report);
    assert!(out.uncovered_functions.is_empty());
    assert!(out.malformed_functions.is_empty());
}

#[test]
fn uncovered_analyzer_keeps_its_result() {
    let mut a = UncoveredAnalyzer::new();
    assert!(a.results.is_none());
    let report = ProgramReport { functions: vec![sample_function("f", 4)], summary: summary() };
    a.analyze(&report);
    assert_eq!(a.results.unwrap().uncovered_functions.len(), 1);
}

#[test]
fn all_functions_are_located_by_first_region() {
    let mut empty = sample_function("empty", 0);
    empty.regions.clear();
    let report = ProgramReport {
        functions: vec![sample_function("f", 1), empty, sample_function("g", 0)],
        summary: summary(),
    };
    let infos = get_all_functions(&report).unwrap();
    assert_eq!(infos.len(), 2);
    assert_eq!(infos[0].name, "f");
    assert_eq!(infos[1].name, "g");
    assert_eq!(infos[0].file_path, "main.c");
    assert_eq!((infos[0].start_line, infos[0].start_column, infos[0].end_line, infos[0].end_column), (1, 1, 9, 2));

    let mut a = ExtractFunctionsAnalyzer::new();
    assert!(a.results.is_none());
    assert!(a.analyze(&report).is_ok());
    assert_eq!(a.results.unwrap().len(), 2);
}

#[test]
fn unlocatable_function_is_an_error() {
    let mut f = sample_function("f", 1);
    f.regions[0].file_id = 7;
    let report = ProgramReport { functions: vec![f], summary: summary() };
    assert!(matches!(get_all_functions(&report), Err(GetCovError::FileIndexOutOfRange(7))));
    let mut a = ExtractFunctionsAnalyzer::new();
    assert!(a.analyze(&report).is_err());
    assert!(a.results.is_none());
}
