use markup_pdf::text::{to_mm_size, MultiLine};

fn lines_of(text: &str, widths: Vec<i64>, max_width: i64) -> Vec<String> {
    let ml = MultiLine {
        text: text.to_string(),
        widths,
        max_width,
    };
    ml.split_text_to_multi_lines()
}

#[test]
fn a_run_that_fits_exactly_is_one_line() {
    // Five characters of five units each against a 25-unit budget.
    let lines = lines_of("Hello", vec![5, 5, 5, 5, 5], 25);
    assert_eq!(lines, vec!["Hello".to_string()]);
}

#[test]
fn a_short_run_is_one_line() {
    let lines = lines_of("Hi", vec![5, 5], 25);
    assert_eq!(lines, vec!["Hi".to_string()]);
}

#[test]
fn a_long_run_is_cut_greedily() {
    // Budget 10: "abcd" with widths 4 each packs two per line.
    let lines = lines_of("abcd", vec![4, 4, 4, 4], 10);
    assert_eq!(lines, vec!["ab".to_string(), "cd".to_string()]);
}

#[test]
fn an_over_wide_character_stays_whole() {
    let lines = lines_of("axb", vec![1, 100, 1], 10);
    assert_eq!(lines, vec!["a".to_string(), "x".to_string(), "b".to_string()]);
}

#[test]
fn concatenating_lines_reconstructs_the_text() {
    let text = "the quick brown fox";
    let widths: Vec<i64> = text.chars().map(|_| 3).collect();
    let lines = lines_of(text, widths, 10);
    let mut joined = String::new();
    for line in &lines {
        joined.push_str(line);
    }
    assert_eq!(joined, text);
}

#[test]
fn empty_text_yields_no_lines() {
    let lines = lines_of("", vec![], 10);
    assert!(lines.is_empty());
}

#[test]
fn multi_byte_text_wraps_by_characters() {
    let lines = lines_of("テスト", vec![10, 10, 10], 20);
    assert_eq!(lines, vec!["テス".to_string(), "ト".to_string()]);
}

#[test]
fn point_sizes_convert_to_length_units_by_the_fixed_ratio() {
    assert_eq!(to_mm_size(360), 127);
    assert_eq!(to_mm_size(14), 4);
    assert_eq!(to_mm_size(0), 0);
}
