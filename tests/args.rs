use getcov::args::{create_args_with_file, options_from_input_files, parse_executable};
use getcov::config::{analysis_options_from_flags, running_mode_for, OutputFormat, RunningMode};
use getcov::error::GetCovError;

fn strings(v: &[&str]) -> Vec<String> {
    v.iter().map(|s| s.to_string()).collect()
}

#[test]
fn placeholder_is_replaced() {
    let out = create_args_with_file(&strings(&["-i", "@@", "-o", "@@"]), &"in/a.txt".to_string());
    assert_eq!(out, strings(&["-i", "in/a.txt", "-o", "in/a.txt"]));
}

#[test]
fn path_is_appended_without_placeholder() {
    let out = create_args_with_file(&strings(&["-v"]), &"in/a.txt".to_string());
    assert_eq!(out, strings(&["-v", "in/a.txt"]));
    let out = create_args_with_file(&Vec::new(), &"in/b.txt".to_string());
    assert_eq!(out, strings(&["in/b.txt"]));
}

#[test]
fn executable_is_split_from_arguments() {
    let (bin, args) = parse_executable(&strings(&["./main", "a", "b"])).unwrap();
    assert_eq!(bin, "./main");
    assert_eq!(args, strings(&["a", "b"]));
    assert!(matches!(parse_executable(&Vec::new()), Err(GetCovError::ArgParse(_))));
}

#[test]
fn one_run_per_input_file() {
    let o = options_from_input_files(
        &"/bin/prog".to_string(),
        &strings(&["@@"]),
        &strings(&["in/1", "in/2"]),
    )
    .unwrap();
    assert_eq!(o.binary, "/bin/prog");
    assert_eq!(o.args_list, vec![strings(&["in/1"]), strings(&["in/2"])]);
    assert!(matches!(
        options_from_input_files(&"/bin/prog".to_string(), &Vec::new(), &Vec::new()),
        Err(GetCovError::ArgParse(_))
    ));
}

#[test]
fn output_format_flags() {
    assert_eq!(analysis_options_from_flags(false, true, true).output_format, OutputFormat::Text);
    assert_eq!(analysis_options_from_flags(false, false, true).output_format, OutputFormat::Hybrid);
    assert_eq!(analysis_options_from_flags(true, false, false).output_format, OutputFormat::Json);
    assert!(analysis_options_from_flags(true, false, false).extract_all_functions);
}

#[test]
fn running_mode_follows_profdata() {
    assert_eq!(running_mode_for(&Some("x.profdata".to_string())), RunningMode::Profdata);
    assert_eq!(running_mode_for(&None), RunningMode::Normal);
}

#[test]
fn argument_error_messages() {
    match parse_executable(&Vec::new()) {
        Err(GetCovError::ArgParse(m)) => assert_eq!(m, "No executable provided"),
        other => panic!("unexpected {:?}", other),
    }
    match options_from_input_files(&"p".to_string(), &Vec::new(), &Vec::new()) {
        Err(GetCovError::ArgParse(m)) => assert_eq!(m, "No input files found in the directory"),
        other => panic!("unexpected {:?}", other.is_ok()),
    }
}
