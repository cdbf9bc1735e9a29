use getcov::classify::{get_partially_covered_predicates, PredicateStatus};
use getcov::error::GetCovError;
use getcov::report::{BranchRecord, FunctionRecord};

fn branch(t: u64, f: u64, file_id: u64) -> BranchRecord {
    BranchRecord {
        line_start: 3,
        column_start: 7,
        line_end: 3,
        column_end: 12,
        execution_count: t,
        false_execution_count: f,
        file_id,
        expanded_file_id: 0,
    }
}

fn function(count: u64, branches: Vec<BranchRecord>) -> FunctionRecord {
    FunctionRecord {
        name: "f".to_string(),
        count,
        filenames: vec!["main.c".to_string()],
        regions: Vec::new(),
        branches,
    }
}

#[test]
fn always_true_branch_is_reported() {
    let f = function(1, vec![branch(5, 0, 0)]);
    let preds = get_partially_covered_predicates(&f).unwrap().unwrap();
    assert_eq!(preds.len(), 1);
    assert_eq!(preds[0].status(), PredicateStatus::AlwaysTrue);
    assert_eq!(preds[0].status().label(), "always true");
    assert_eq!(preds[0].file_path, "main.c");
    assert_eq!((preds[0].start_line, preds[0].start_column), (3, 7));
    assert_eq!((preds[0].true_count, preds[0].false_count), (5, 0));
}

#[test]
fn never_executed_branch_is_not_reported() {
    let f = function(1, vec![branch(0, 0, 0)]);
    let preds = get_partially_covered_predicates(&f).unwrap().unwrap();
    assert!(preds.is_empty());
}

#[test]
fn always_false_and_fully_covered_branches() {
    let f = function(2, vec![branch(0, 4, 0), branch(3, 3, 0), branch(1, 0, 0)]);
    let preds = get_partially_covered_predicates(&f).unwrap().unwrap();
    assert_eq!(preds.len(), 2);
    assert_eq!(preds[0].status(), PredicateStatus::AlwaysFalse);
    assert_eq!(preds[0].status().label(), "always false");
    assert_eq!(preds[1].status(), PredicateStatus::AlwaysTrue);
    for p in &preds {
        assert!(!(p.true_count > 0 && p.false_count > 0));
        assert_ne!(p.true_count == 0, p.false_count == 0);
    }
}

#[test]
fn uncalled_function_has_no_predicates() {
    let f = function(0, vec![branch(5, 0, 0), branch(0, 2, 9)]);
    assert!(matches!(get_partially_covered_predicates(&f), Ok(None)));
}

#[test]
fn bad_file_index_is_an_error() {
    let f = function(1, vec![branch(5, 0, 3)]);
    assert!(matches!(
        get_partially_covered_predicates(&f),
        Err(GetCovError::FileIndexOutOfRange(3))
    ));
    let g = function(1, vec![branch(5, 5, 3)]);
    assert!(get_partially_covered_predicates(&g).is_ok());
}

#[test]
fn status_labels() {
    assert_eq!(PredicateStatus::NeverExecuted.label(), "never executed");
}
