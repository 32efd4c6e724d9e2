use llm2fs::lines::LineOrLines;
use llm2fs::record::{error_halts_batch, is_file_in_current_directory, PatchError};

#[test]
fn scalar_line_lifts_to_one_element() {
    let c = LineOrLines::Line("single".to_string());
    assert_eq!(c.lines(), vec!["single".to_string()]);
    assert_eq!(c.len(), 1);
}

#[test]
fn sequence_of_lines_kept_in_order() {
    let c = LineOrLines::Lines(vec!["first".to_string(), "second".to_string()]);
    assert_eq!(c.lines(), vec!["first".to_string(), "second".to_string()]);
    assert_eq!(c.len(), 2);
}

#[test]
fn empty_sequence_allowed() {
    let c = LineOrLines::Lines(Vec::new());
    assert_eq!(c.lines(), Vec::<String>::new());
    assert_eq!(c.len(), 0);
}

#[test]
fn empty_string_is_a_legal_line() {
    let c = LineOrLines::Line(String::new());
    assert_eq!(c.lines(), vec![String::new()]);
    assert_eq!(c.len(), 1);
}

#[test]
fn relative_paths_inside_tree_accepted() {
    assert!(is_file_in_current_directory("a.txt"));
    assert!(is_file_in_current_directory("src/main.rs"));
    assert!(is_file_in_current_directory("./src/main.rs"));
    assert!(is_file_in_current_directory("a/../b.txt"));
    assert!(is_file_in_current_directory(""));
}

#[test]
fn absolute_paths_rejected() {
    assert!(!is_file_in_current_directory("/etc/hosts"));
    assert!(!is_file_in_current_directory("/"));
}

#[test]
fn parent_traversal_rejected() {
    assert!(!is_file_in_current_directory(".."));
    assert!(!is_file_in_current_directory("../sibling.txt"));
    assert!(!is_file_in_current_directory("a/../../b.txt"));
    assert!(!is_file_in_current_directory("a/b/../../../c.txt"));
}

#[test]
fn double_dot_as_name_prefix_is_not_traversal() {
    assert!(is_file_in_current_directory("..hidden.txt"));
    assert!(is_file_in_current_directory("a/..b/c.txt"));
}

#[test]
fn batch_policy_skips_only_path_escapes() {
    assert!(!error_halts_batch(&PatchError::PathEscapesRoot));
    assert!(error_halts_batch(&PatchError::AlreadyExists));
    assert!(error_halts_batch(&PatchError::NotFound));
    assert!(error_halts_batch(&PatchError::MarkerNotFound { best: None }));
    assert!(error_halts_batch(&PatchError::IoError));
    assert!(error_halts_batch(&PatchError::PayloadMalformed));
}
