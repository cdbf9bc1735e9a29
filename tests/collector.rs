use getcov::covmap::covmap_verdict;
use getcov::collector::decimal_text;
use getcov::collector::{profraw_names, report_json_from_output, single_profraw};
use getcov::covmap::{check_covmap, contains_llvm_covmap};
use getcov::error::GetCovError;

fn strings(v: &[&str]) -> Vec<String> {
    v.iter().map(|s| s.to_string()).collect()
}

#[test]
fn profraw_names_by_prefix() {
    let names = strings(&["getcov_1_a.profraw", "other.profraw", "getcov_1_b.profraw", "getcov_2_c"]);
    assert_eq!(profraw_names(&names, "getcov_1_"), strings(&["getcov_1_a.profraw", "getcov_1_b.profraw"]));
}

#[test]
fn exactly_one_profraw_is_needed() {
    assert_eq!(single_profraw(strings(&["p.profraw"])).unwrap(), "p.profraw");
    match single_profraw(strings(&["a", "b"])) {
        Err(GetCovError::Coverage(m)) => assert_eq!(m, "Expected 1 profraw file, found 2"),
        other => panic!("unexpected {:?}", other),
    }
    assert!(single_profraw(Vec::new()).is_err());
}

#[test]
fn export_output_handling() {
    assert_eq!(report_json_from_output(true, b"{}".to_vec(), String::new()).unwrap(), "{}");
    assert!(matches!(
        report_json_from_output(true, vec![0xff, 0xfe], String::new()),
        Err(GetCovError::LlvmCovParse(_))
    ));
    match report_json_from_output(false, b"{}".to_vec(), "boom".to_string()) {
        Err(GetCovError::Coverage(m)) => assert_eq!(m, "boom"),
        other => panic!("unexpected {:?}", other),
    }
}

#[test]
fn covmap_section_names() {
    assert!(contains_llvm_covmap(&vec![None, Some(".text".to_string()), Some("__llvm_covmap".to_string())]));
    assert!(!contains_llvm_covmap(&vec![Some(".text".to_string()), None]));
}

#[test]
fn non_object_bytes_have_no_covmap() {
    let r = check_covmap("x", b"plain text, not a binary");
    match r {
        Err(GetCovError::Coverage(m)) => {
            assert_eq!(m, "Binary 'x' does not contain LLVM coverage instrumentation.")
        }
        Err(GetCovError::Goblin(_)) => {}
        other => panic!("unexpected {:?}", other),
    }
}

fn tiny_elf(section: &str) -> Vec<u8> {
    let mut strtab = vec![0u8];
    strtab.extend_from_slice(b".shstrtab\0");
    let second_name = strtab.len() as u32;
    strtab.extend_from_slice(section.as_bytes());
    strtab.push(0);
    let shoff = (64 + strtab.len() + 7) / 8 * 8;
    let mut b = vec![0x7f, b'E', b'L', b'F', 2, 1, 1, 0, 0, 0, 0, 0, 0, 0, 0, 0];
    b.extend_from_slice(&1u16.to_le_bytes());
    b.extend_from_slice(&62u16.to_le_bytes());
    b.extend_from_slice(&1u32.to_le_bytes());
    b.extend_from_slice(&0u64.to_le_bytes());
    b.extend_from_slice(&0u64.to_le_bytes());
    b.extend_from_slice(&(shoff as u64).to_le_bytes());
    b.extend_from_slice(&0u32.to_le_bytes());
    for v in [64u16, 0, 0, 64, 3, 1] {
        b.extend_from_slice(&v.to_le_bytes());
    }
    b.extend_from_slice(&strtab);
    b.resize(shoff, 0);
    let header = |name: u32, kind: u32, size: u64| {
        let mut h = Vec::new();
        h.extend_from_slice(&name.to_le_bytes());
        h.extend_from_slice(&kind.to_le_bytes());
        h.extend_from_slice(&0u64.to_le_bytes());
        h.extend_from_slice(&0u64.to_le_bytes());
        h.extend_from_slice(&64u64.to_le_bytes());
        h.extend_from_slice(&size.to_le_bytes());
        h.extend_from_slice(&0u32.to_le_bytes());
        h.extend_from_slice(&0u32.to_le_bytes());
        h.extend_from_slice(&1u64.to_le_bytes());
        h.extend_from_slice(&0u64.to_le_bytes());
        h
    };
    b.extend_from_slice(&vec![0u8; 64]);
    b.extend_from_slice(&header(1, 3, strtab.len() as u64));
    b.extend_from_slice(&header(second_name, 1, 0));
    b
}

#[test]
fn elf_with_covmap_section_passes() {
    assert!(check_covmap("bin", &tiny_elf("__llvm_covmap")).is_ok());
}

#[test]
fn elf_without_covmap_section_fails() {
    assert!(matches!(check_covmap("bin", &tiny_elf(".text")), Err(GetCovError::Coverage(_))));
}

#[test]
fn decimal_rendering() {
    assert_eq!(decimal_text(0), "0");
    assert_eq!(decimal_text(7), "7");
    assert_eq!(decimal_text(10), "10");
    assert_eq!(decimal_text(1234567890), "1234567890");
    assert_eq!(decimal_text(u64::MAX), u64::MAX.to_string());
}

#[test]
fn profraw_count_message() {
    match single_profraw(Vec::new()) {
        Err(GetCovError::Coverage(m)) => assert_eq!(m, "Expected 1 profraw file, found 0"),
        other => panic!("unexpected {:?}", other),
    }
}

#[test]
fn covmap_verdict_cases() {
    assert!(covmap_verdict("b", Ok(Some(vec![Some("__llvm_covmap".to_string())]))).is_ok());
    match covmap_verdict("b", Ok(None)) {
        Err(GetCovError::Coverage(m)) => {
            assert_eq!(m, "Binary 'b' does not contain LLVM coverage instrumentation.")
        }
        other => panic!("unexpected {:?}", other),
    }
    let parse_error = goblin::Object::parse(&[0x7f, b'E', b'L', b'F', 2]).err();
    if let Some(e) = parse_error {
        assert!(matches!(covmap_verdict("b", Err(e)), Err(GetCovError::Goblin(_))));
    }
}

#[test]
fn utf8_error_message() {
    match report_json_from_output(true, vec![0xff], String::new()) {
        Err(GetCovError::LlvmCovParse(m)) => assert_eq!(m, "llvm-cov output is not valid UTF-8"),
        other => panic!("unexpected {:?}", other),
    }
}
