use llm2fs::apply::{
    apply_delete, apply_insert_after, apply_insert_before, plan_change, FileAction,
};
use llm2fs::lines::LineOrLines;
use llm2fs::record::{Change, Command, PatchError};
use llm2fs::text::join_lines;

fn lines(v: &[&str]) -> Vec<String> {
    v.iter().map(|s| s.to_string()).collect()
}

fn sample_file() -> Vec<String> {
    lines(&["fn main() {", "    println!(\"hi\");", "}"])
}

#[test]
fn insert_before_marker() {
    let file = sample_file();
    let insert = LineOrLines::Lines(lines(&["    println!(\"bye\");"]));
    let marker = LineOrLines::Line("}".to_string());
    let got = apply_insert_before(&file, &insert, &marker).expect("marker present");
    assert_eq!(
        got,
        lines(&["fn main() {", "    println!(\"hi\");", "    println!(\"bye\");", "}"])
    );
}

#[test]
fn insert_after_marker() {
    let file = sample_file();
    let insert = LineOrLines::Line("    println!(\"bye\");".to_string());
    let marker = LineOrLines::Line("    println!(\"hi\");".to_string());
    let got = apply_insert_after(&file, &insert, &marker).expect("marker present");
    assert_eq!(
        got,
        lines(&["fn main() {", "    println!(\"hi\");", "    println!(\"bye\");", "}"])
    );
}

#[test]
fn delete_target_lines() {
    let file = sample_file();
    let target = LineOrLines::Lines(lines(&["    println!(\"hi\");"]));
    let got = apply_delete(&file, &target).expect("target present");
    assert_eq!(got, lines(&["fn main() {", "}"]));
}

#[test]
fn insert_after_blank_marker_on_empty_file() {
    let file: Vec<String> = Vec::new();
    let insert = LineOrLines::Lines(lines(&["line one"]));
    let marker = LineOrLines::Line("".to_string());
    let got = apply_insert_after(&file, &insert, &marker).expect("fresh file");
    assert_eq!(got, lines(&["line one"]));
}

#[test]
fn insert_strips_echoed_marker() {
    let file = sample_file();
    // the insert redundantly repeats the marker line before the new text
    let insert = LineOrLines::Lines(lines(&["    println!(\"hi\");", "    println!(\"bye\");"]));
    let marker = LineOrLines::Line("    println!(\"hi\");".to_string());
    let got = apply_insert_after(&file, &insert, &marker).expect("marker present");
    assert_eq!(
        got,
        lines(&["fn main() {", "    println!(\"hi\");", "    println!(\"bye\");", "}"])
    );
}

#[test]
fn insert_keeps_non_echoing_lines() {
    let file = sample_file();
    let insert = LineOrLines::Lines(lines(&["    a();", "    b();"]));
    let marker = LineOrLines::Line("fn main() {".to_string());
    let got = apply_insert_after(&file, &insert, &marker).expect("marker present");
    assert_eq!(
        got,
        lines(&["fn main() {", "    a();", "    b();", "    println!(\"hi\");", "}"])
    );
}

#[test]
fn marker_not_found_reports_error() {
    let file = sample_file();
    let insert = LineOrLines::Line("x".to_string());
    let marker = LineOrLines::Line("nothing like the file at all".to_string());
    match apply_insert_after(&file, &insert, &marker) {
        Err(PatchError::MarkerNotFound { best }) => {
            assert!(best.is_some());
        }
        other => panic!("expected MarkerNotFound, got {:?}", other),
    }
}

#[test]
fn insert_then_delete_round_trip() {
    let file = sample_file();
    let inserted = lines(&["    log();"]);
    let insert = LineOrLines::Lines(inserted.clone());
    let marker = LineOrLines::Line("    println!(\"hi\");".to_string());
    let patched = apply_insert_after(&file, &insert, &marker).expect("marker present");
    let target = LineOrLines::Lines(inserted);
    let restored = apply_delete(&patched, &target).expect("inserted lines present");
    assert_eq!(restored, file);
    assert_eq!(join_lines(&restored), join_lines(&file));
}

#[test]
fn round_trip_with_blank_line_in_insert() {
    let file: Vec<String> = Vec::new();
    let inserted = lines(&["x", ""]);
    let insert = LineOrLines::Lines(inserted.clone());
    let marker = LineOrLines::Line(String::new());
    let patched = apply_insert_after(&file, &insert, &marker).expect("fresh file");
    assert_eq!(patched, lines(&["x", ""]));
    let target = LineOrLines::Lines(inserted);
    let restored = apply_delete(&patched, &target).expect("inserted lines present");
    assert_eq!(restored, file);
}

#[test]
fn create_file_plans_write() {
    let change = Change {
        filename: "src/new.rs".to_string(),
        command: Command::CreateFile {
            new_lines: LineOrLines::Lines(lines(&["mod a;", "mod b;"])),
        },
        reason: "adds the module list".to_string(),
    };
    match plan_change(&change, false, None) {
        Ok(FileAction::Write(v)) => assert_eq!(v, lines(&["mod a;", "mod b;"])),
        other => panic!("expected a write, got {:?}", other),
    }
}

#[test]
fn create_file_on_existing_path_reports_already_exists() {
    let change = Change {
        filename: "src/present.rs".to_string(),
        command: Command::CreateFile {
            new_lines: LineOrLines::Line("anything".to_string()),
        },
        reason: "would clobber".to_string(),
    };
    match plan_change(&change, true, None) {
        Err(PatchError::AlreadyExists) => {}
        other => panic!("expected AlreadyExists, got {:?}", other),
    }
}

#[test]
fn rename_file_plans_rename() {
    let change = Change {
        filename: "old.txt".to_string(),
        command: Command::RenameFile { new_filename: "new.txt".to_string() },
        reason: "better name".to_string(),
    };
    match plan_change(&change, true, None) {
        Ok(FileAction::Rename(p)) => assert_eq!(p, "new.txt"),
        other => panic!("expected a rename, got {:?}", other),
    }
}

#[test]
fn delete_file_plans_remove() {
    let change = Change {
        filename: "gone.txt".to_string(),
        command: Command::DeleteFile,
        reason: "obsolete".to_string(),
    };
    match plan_change(&change, true, None) {
        Ok(FileAction::Remove) => {}
        other => panic!("expected a removal, got {:?}", other),
    }
}

#[test]
fn escaping_path_is_rejected_before_anything() {
    let change = Change {
        filename: "../outside.txt".to_string(),
        command: Command::DeleteFile,
        reason: "tries to leave the tree".to_string(),
    };
    match plan_change(&change, true, None) {
        Err(PatchError::PathEscapesRoot) => {}
        other => panic!("expected PathEscapesRoot, got {:?}", other),
    }
}

#[test]
fn missing_file_for_line_edit_reports_not_found() {
    let change = Change {
        filename: "absent.txt".to_string(),
        command: Command::Delete { delete_lines: LineOrLines::Line("x".to_string()) },
        reason: "file vanished".to_string(),
    };
    match plan_change(&change, false, None) {
        Err(PatchError::NotFound) => {}
        other => panic!("expected NotFound, got {:?}", other),
    }
}

#[test]
fn plan_line_edit_produces_new_content() {
    let file = sample_file();
    let change = Change {
        filename: "src/main.rs".to_string(),
        command: Command::Delete {
            delete_lines: LineOrLines::Line("    println!(\"hi\");".to_string()),
        },
        reason: "drops the greeting".to_string(),
    };
    match plan_change(&change, true, Some(&file)) {
        Ok(FileAction::Write(v)) => assert_eq!(v, lines(&["fn main() {", "}"])),
        other => panic!("expected a write, got {:?}", other),
    }
}

#[test]
fn join_lines_single_newline_separators() {
    assert_eq!(join_lines(&lines(&["a", "b", "c"])), "a\nb\nc");
    assert_eq!(join_lines(&lines(&["only"])), "only");
    assert_eq!(join_lines(&Vec::new()), "");
    assert_eq!(join_lines(&lines(&["", ""])), "\n");
}
