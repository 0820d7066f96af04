use lsproxy::documents::{DidOpenConfiguration, WorkspaceDocumentsHandler};

fn strings(v: &[&str]) -> Vec<String> {
    v.iter().map(|s| s.to_string()).collect()
}

#[test]
fn patterns_decide_membership() {
    let h = WorkspaceDocumentsHandler::new("/w", strings(&["*.rs"]), strings(&["file2.txt"]), DidOpenConfiguration::Never);
    assert_eq!(h.matches_patterns("/w/file1.rs"), Some(true));
    assert_eq!(h.matches_patterns("file2.txt"), Some(false));
    let h = WorkspaceDocumentsHandler::new("/w", strings(&["**/*.py"]), strings(&["**/node_modules"]), DidOpenConfiguration::Lazy);
    assert_eq!(h.matches_patterns("/w/src/a.py"), Some(true));
    assert_eq!(h.matches_patterns("/w/src/a.rs"), Some(false));
}

#[test]
fn an_invalid_pattern_that_is_tried_gives_none() {
    let h = WorkspaceDocumentsHandler::new("/w", strings(&["[", "*.rs"]), vec![], DidOpenConfiguration::Never);
    assert_eq!(h.matches_patterns("/w/a.rs"), None);
    let h = WorkspaceDocumentsHandler::new("/w", strings(&["*.rs", "["]), vec![], DidOpenConfiguration::Never);
    assert_eq!(h.matches_patterns("/w/a.rs"), Some(true));
}

#[test]
fn stored_content_is_read_back() {
    let mut h = WorkspaceDocumentsHandler::new("/w", strings(&["*.txt"]), vec![], DidOpenConfiguration::Never);
    assert!(h.needs_scan());
    h.fill_cache(strings(&["/w/a.txt", "/w/b.txt"]));
    assert!(!h.needs_scan());
    assert_eq!(h.cached_content("/w/a.txt"), None);
    h.store_content("/w/a.txt", "Hello".to_string());
    assert_eq!(h.cached_content("/w/a.txt"), Some("Hello".to_string()));
    assert_eq!(h.cached_content("/w/b.txt"), None);
    let mut files = h.cached_files();
    files.sort();
    assert_eq!(files, strings(&["/w/a.txt", "/w/b.txt"]));
}

#[test]
fn loading_bytes_replaces_invalid_utf8() {
    let mut h = WorkspaceDocumentsHandler::new("/w", strings(&["*.txt"]), vec![], DidOpenConfiguration::Never);
    let text = h.load_content("/w/x.txt", &vec![b'o', b'k', 0xff]);
    assert_eq!(text, "ok\u{FFFD}");
    assert_eq!(h.cached_content("/w/x.txt"), Some("ok\u{FFFD}".to_string()));
}

#[test]
fn updating_patterns_empties_the_cache() {
    let mut h = WorkspaceDocumentsHandler::new("/w", strings(&["*.txt"]), vec![], DidOpenConfiguration::Never);
    h.fill_cache(strings(&["/w/file2.txt"]));
    h.update_patterns(strings(&["*.rs"]), vec![]);
    assert!(h.needs_scan());
    assert!(h.cached_files().is_empty());
    assert_eq!(h.matches_patterns("/w/file1.rs"), Some(true));
}

#[test]
fn a_watched_change_in_the_workspace_clears_the_cache() {
    let mut h = WorkspaceDocumentsHandler::new("/w", strings(&["*.rs"]), vec![], DidOpenConfiguration::Never);
    h.fill_cache(strings(&["/w/file1.rs"]));
    assert_eq!(h.handle_watch_event("/w/notes.md"), Some(false));
    assert!(!h.needs_scan());
    assert_eq!(h.handle_watch_event("/w/file3.rs"), Some(true));
    assert!(h.needs_scan());
}

#[test]
fn documents_are_recorded_open_once_added() {
    let mut h = WorkspaceDocumentsHandler::new("/w", vec![], vec![], DidOpenConfiguration::Lazy);
    assert_eq!(h.get_did_open_configuration(), DidOpenConfiguration::Lazy);
    assert_eq!(h.try_is_did_open_document("/w/a.py"), Some(false));
    assert!(h.try_add_did_open_document("/w/a.py"));
    assert_eq!(h.try_is_did_open_document("/w/a.py"), Some(true));
    assert_eq!(h.try_is_did_open_document("/w/b.py"), Some(false));
    assert!(!h.try_add_did_open_document("relative/path.py"));
    assert_eq!(h.try_is_did_open_document("relative/path.py"), None);
}

#[test]
fn the_current_patterns_are_given_back() {
    let mut h = WorkspaceDocumentsHandler::new("/w", strings(&["**/*.ts"]), strings(&["**/dist"]), DidOpenConfiguration::Lazy);
    assert_eq!(h.patterns(), (strings(&["**/*.ts"]), strings(&["**/dist"])));
    h.update_patterns(strings(&["src/**/*"]), strings(&["**/node_modules", "out"]));
    assert_eq!(h.patterns(), (strings(&["src/**/*"]), strings(&["**/node_modules", "out"])));
}
