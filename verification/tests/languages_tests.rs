use lsproxy::api_types::SupportedLanguages;
use lsproxy::languages::{
    default_exclude_patterns, did_open_batches, file_patterns, find_workspace_folders, get_root_files,
    root_file_patterns, select_launcher, text_document_item, tsconfig_patterns,
};

#[test]
fn tsconfig_include_and_exclude_are_used() {
    let (inc, exc) = tsconfig_patterns("{ include: ['src/**/*', 3], // comment\n exclude: ['dist'] }").unwrap();
    assert_eq!(inc, vec!["src/**/*"]);
    let mut expected = default_exclude_patterns();
    expected.push("dist".to_string());
    assert_eq!(exc, expected);
}

#[test]
fn tsconfig_without_include_falls_back_to_source_patterns() {
    let (inc, exc) = tsconfig_patterns("{}").unwrap();
    assert_eq!(inc, file_patterns(SupportedLanguages::TypeScriptJavaScript));
    assert_eq!(exc, default_exclude_patterns());
    assert!(tsconfig_patterns("{ not json").is_err());
}

#[test]
fn root_files_are_searched_at_any_depth() {
    let roots = get_root_files(SupportedLanguages::Rust);
    assert_eq!(roots, vec!["Cargo.toml"]);
    assert_eq!(root_file_patterns(&roots), vec!["**/Cargo.toml"]);
}

#[test]
fn workspace_folders_fall_back_to_the_root() {
    let folders = find_workspace_folders("/w", &vec!["a".to_string(), "b/c".to_string()]);
    assert_eq!(folders.len(), 2);
    assert_eq!(folders[0].uri, "file:///w/a");
    assert_eq!(folders[0].name, "a");
    assert_eq!(folders[1].uri, "file:///w/b/c");
    assert_eq!(folders[1].name, "c");
    let root_only = find_workspace_folders("/w", &vec![]);
    assert_eq!(root_only.len(), 1);
    assert_eq!(root_only[0].uri, "file:///w");
    assert_eq!(root_only[0].name, "/w");
    assert!(find_workspace_folders("relative", &vec![]).is_empty());
}

#[test]
fn documents_are_announced_by_file_uri() {
    let item = text_document_item("/w/a.ts", "typescript", "let x = 1;".to_string()).unwrap();
    assert_eq!(item.uri, "file:///w/a.ts");
    assert_eq!(item.language_id, "typescript");
    assert_eq!(item.version, 1);
    assert_eq!(text_document_item("a.ts", "typescript", String::new()).unwrap_err(), "Invalid file path");
}

#[test]
fn documents_are_opened_in_batches_of_a_hundred() {
    assert!(did_open_batches(0, 100).is_empty());
    assert_eq!(did_open_batches(100, 100), vec![(0, 100)]);
    assert_eq!(did_open_batches(250, 100), vec![(0, 100), (100, 200), (200, 250)]);
}

#[test]
fn the_java_launcher_is_the_first_match() {
    assert_eq!(select_launcher(None, Some(Ok("/opt/a.jar".to_string()))), Ok("/opt/a.jar".to_string()));
    assert_eq!(select_launcher(Some("bad".to_string()), None), Err("Failed to read glob pattern: bad".to_string()));
    assert_eq!(
        select_launcher(None, Some(Err("denied".to_string()))),
        Err("Error reading launcher jar path: denied".to_string())
    );
    assert_eq!(
        select_launcher(None, None),
        Err("No launcher jar found matching pattern: /opt/jdtls/plugins/org.eclipse.equinox.launcher_*.jar".to_string())
    );
}

#[test]
fn a_relative_root_has_no_folders() {
    assert!(find_workspace_folders("w", &vec![]).is_empty());
    let under_slash = find_workspace_folders("/", &vec!["a".to_string()]);
    assert_eq!(under_slash.len(), 1);
    assert_eq!(under_slash[0].uri, "file:///a");
}
