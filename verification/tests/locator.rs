use llm2fs::distance::levenshtein_distance;
use llm2fs::locate::{find_in_file_lines, locate_marker};

fn lines(v: &[&str]) -> Vec<String> {
    v.iter().map(|s| s.to_string()).collect()
}

#[test]
fn levenshtein_classic() {
    assert_eq!(levenshtein_distance("kitten", "sitting"), 3);
    assert_eq!(levenshtein_distance("flaw", "lawn"), 2);
}

#[test]
fn levenshtein_empty_sides() {
    assert_eq!(levenshtein_distance("", ""), 0);
    assert_eq!(levenshtein_distance("", "abc"), 3);
    assert_eq!(levenshtein_distance("abc", ""), 3);
}

#[test]
fn levenshtein_equal_strings() {
    assert_eq!(levenshtein_distance("same text", "same text"), 0);
}

#[test]
fn levenshtein_counts_scalar_values_not_bytes() {
    // the accented character is one scalar value, several bytes
    assert_eq!(levenshtein_distance("caf\u{e9}", "cafe"), 1);
    assert_eq!(levenshtein_distance("\u{3042}\u{3044}", "\u{3042}"), 1);
}

#[test]
fn exact_match_found_at_index() {
    let file = lines(&["fn main() {", "    println!(\"hi\");", "}"]);
    let needle = lines(&["    println!(\"hi\");"]);
    assert_eq!(find_in_file_lines(&file, &needle), Some(1));
}

#[test]
fn exact_match_leftmost_wins() {
    let file = lines(&["x", "dup", "y", "dup", "z"]);
    let needle = lines(&["dup"]);
    assert_eq!(find_in_file_lines(&file, &needle), Some(1));
}

#[test]
fn whitespace_drift_still_matches() {
    let file = lines(&["fn main() {", "    println!(\"hi\");", "}"]);
    let needle = lines(&["  println!(\"hi\");"]);
    assert_eq!(find_in_file_lines(&file, &needle), Some(1));
}

#[test]
fn blank_needle_matches_start() {
    let file = lines(&["a", "b"]);
    assert_eq!(find_in_file_lines(&file, &lines(&[""])), Some(0));
    assert_eq!(find_in_file_lines(&file, &lines(&["   ", "\t"])), Some(0));
    assert_eq!(find_in_file_lines(&file, &lines(&[])), Some(0));
}

#[test]
fn blank_needle_matches_empty_file() {
    let file: Vec<String> = Vec::new();
    assert_eq!(find_in_file_lines(&file, &lines(&[""])), Some(0));
}

#[test]
fn needle_longer_than_file_not_found() {
    let file = lines(&["only one line"]);
    let needle = lines(&["only one line", "and another"]);
    assert_eq!(find_in_file_lines(&file, &needle), None);
}

#[test]
fn near_match_within_five_percent_accepted() {
    // needle key has 40 characters; one substitution is 2.5% < 5%
    let file = lines(&["aaaaaaaaaaaaaaaaaaaXaaaaaaaaaaaaaaaaaaaa", "rest"]);
    let needle = lines(&["aaaaaaaaaaaaaaaaaaaaaaaaaaaaaaaaaaaaaaaa"]);
    assert_eq!(find_in_file_lines(&file, &needle), Some(0));
}

#[test]
fn far_match_beyond_five_percent_rejected() {
    // ten characters, one substitution: 10% > 5%
    let file = lines(&["aaaaaXaaaa"]);
    let needle = lines(&["aaaaaaaaaa"]);
    assert_eq!(find_in_file_lines(&file, &needle), None);
}

#[test]
fn boundary_exactly_five_percent_accepted() {
    // twenty characters, one substitution: exactly 5%
    let file = lines(&["aaaaaaaaaaXaaaaaaaaa"]);
    let needle = lines(&["aaaaaaaaaaaaaaaaaaaa"]);
    assert_eq!(find_in_file_lines(&file, &needle), Some(0));
}

#[test]
fn multi_line_window_match() {
    let file = lines(&["one", "two", "three", "four"]);
    let needle = lines(&["two", "three"]);
    assert_eq!(find_in_file_lines(&file, &needle), Some(1));
}

#[test]
fn needle_with_interior_blank_line_matches() {
    let file = lines(&["a", "", "b"]);
    let needle = lines(&["a", "", "b"]);
    assert_eq!(find_in_file_lines(&file, &needle), Some(0));
}

#[test]
fn needle_with_trailing_blank_line_matches() {
    let file = lines(&["start", "x", "", "end"]);
    let needle = lines(&["x", ""]);
    assert_eq!(find_in_file_lines(&file, &needle), Some(1));
}

#[test]
fn blank_needle_lines_compare_against_window_blanks() {
    // the needle's blank line must line up with a blank window line
    let file = lines(&["a", "c", "b"]);
    let needle = lines(&["a", "", "b"]);
    // keys "a\n\nb" vs "a\nc\nb": distance 1 on length 4, beyond 5%
    assert_eq!(find_in_file_lines(&file, &needle), None);
}

#[test]
fn unicode_whitespace_is_trimmed_too() {
    let file = lines(&["fn main() {", "    println!(\"hi\");", "}"]);
    // no-break space and ideographic space around the marker line
    let needle = lines(&["\u{a0}println!(\"hi\");\u{3000}"]);
    assert_eq!(find_in_file_lines(&file, &needle), Some(1));
}

#[test]
fn rejection_reports_best_candidate() {
    let file = lines(&["abcdefghij", "zzzzzzzzzz"]);
    let needle = lines(&["abXdefghij"]);
    let (found, diag) = locate_marker(&file, &needle);
    assert_eq!(found, None);
    let d = diag.expect("a window existed, so a best candidate is reported");
    assert_eq!(d.index, 0);
    assert_eq!(d.distance, 1);
    assert_eq!(d.needle_chars, 10);
}

#[test]
fn acceptance_also_reports_candidate() {
    let file = lines(&["hello world"]);
    let needle = lines(&["hello world"]);
    let (found, diag) = locate_marker(&file, &needle);
    assert_eq!(found, Some(0));
    let d = diag.expect("a window existed");
    assert_eq!(d.distance, 0);
}
