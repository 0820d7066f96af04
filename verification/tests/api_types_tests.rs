use lsproxy::api_types::{
    get_mount_dir, set_global_mount_dir, set_thread_local_mount_dir, unset_thread_local_mount_dir,
    FileRange, MountDirs, Position, SupportedLanguages,
};

fn pos(line: u32, character: u32) -> Position {
    Position { line, character }
}

#[test]
fn test_contains_multi_line_range() {
    let range = FileRange { path: "test.rs".to_string(), start: pos(10, 5), end: pos(12, 10) };
    assert!(range.contains(&pos(11, 0)), "middle line should be contained");
    assert!(range.contains(&pos(10, 5)), "start position should be contained");
    assert!(range.contains(&pos(12, 10)), "end position should be contained");
}

#[test]
fn test_contains_multi_line_range_outside_positions() {
    let range = FileRange { path: "test.rs".to_string(), start: pos(10, 5), end: pos(12, 10) };
    assert!(!range.contains(&pos(9, 0)), "line before start should not be contained");
    assert!(!range.contains(&pos(13, 0)), "line after end should not be contained");
    assert!(!range.contains(&pos(10, 4)), "position before start on first line should not be contained");
    assert!(!range.contains(&pos(12, 11)), "position after end on last line should not be contained");
}

#[test]
fn test_contains_single_line_range() {
    let single_line_range = FileRange { path: "test.rs".to_string(), start: pos(10, 5), end: pos(10, 10) };
    assert!(single_line_range.contains(&pos(10, 7)), "position within single line range should be contained");
    assert!(!single_line_range.contains(&pos(10, 4)), "position before single line range should not be contained");
    assert!(!single_line_range.contains(&pos(10, 11)), "position after single line range should not be contained");
}

#[test]
fn test_contains_zero_width_range() {
    let zero_width_range = FileRange { path: "test.rs".to_string(), start: pos(10, 5), end: pos(10, 5) };
    assert!(zero_width_range.contains(&pos(10, 5)), "position at zero-width range should be contained");
    assert!(!zero_width_range.contains(&pos(10, 4)), "position before zero-width range should not be contained");
    assert!(!zero_width_range.contains(&pos(10, 6)), "position after zero-width range should not be contained");
}

#[test]
fn mount_dir_defaults_to_workspace() {
    let dirs = MountDirs::new();
    assert_eq!(get_mount_dir(&dirs), "/mnt/workspace");
}

#[test]
fn thread_local_mount_dir_overrides_global_until_unset() {
    let mut dirs = MountDirs::new();
    set_global_mount_dir(&mut dirs, "/srv/global");
    assert_eq!(get_mount_dir(&dirs), "/srv/global");
    set_thread_local_mount_dir(&mut dirs, "/tmp/local");
    assert_eq!(get_mount_dir(&dirs), "/tmp/local");
    set_global_mount_dir(&mut dirs, "/srv/other");
    assert_eq!(get_mount_dir(&dirs), "/tmp/local");
    unset_thread_local_mount_dir(&mut dirs);
    assert_eq!(get_mount_dir(&dirs), "/srv/other");
}

#[test]
fn language_names_are_lower_case() {
    assert_eq!(SupportedLanguages::Python.name(), "python");
    assert_eq!(SupportedLanguages::TypeScriptJavaScript.name(), "typescript_javascript");
    assert_eq!(SupportedLanguages::CPP.name(), "cpp");
}
