use getcov::file_part::get_file_part;

fn part(content: &str, sl: u64, sc: u64, el: u64, ec: u64) -> (String, bool) {
    let p = get_file_part(&content.as_bytes().to_vec(), sl, sc, el, ec);
    (String::from_utf8(p.text).unwrap(), p.clamped)
}

const SOURCE: &str = "int main() {\n  return 0;\n}\n";

#[test]
fn single_line_slice() {
    assert_eq!(part(SOURCE, 2, 3, 2, 12), ("return 0;".to_string(), false));
}

#[test]
fn multi_line_slice() {
    assert_eq!(part(SOURCE, 1, 12, 3, 2), ("{\n  return 0;\n}".to_string(), false));
}

#[test]
fn end_column_past_line_is_clamped() {
    assert_eq!(part(SOURCE, 2, 3, 2, 40), ("return 0;".to_string(), true));
}

#[test]
fn lines_past_end_are_clamped() {
    assert_eq!(part(SOURCE, 9, 1, 12, 3), ("".to_string(), true));
    assert_eq!(part(SOURCE, 3, 1, 7, 1), ("}\n".to_string(), true));
}

#[test]
fn start_after_end_in_one_line_gives_empty_text() {
    assert_eq!(part(SOURCE, 2, 8, 2, 4), ("".to_string(), true));
}

#[test]
fn lines_in_reverse_order_give_empty_text() {
    assert_eq!(part(SOURCE, 3, 1, 1, 4), ("".to_string(), true));
}

#[test]
fn zero_line_is_clamped() {
    assert_eq!(part(SOURCE, 0, 1, 1, 4), ("int".to_string(), true));
}

#[test]
fn empty_content() {
    assert_eq!(part("", 1, 1, 1, 1), ("".to_string(), false));
}
