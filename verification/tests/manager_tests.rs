use lsproxy::api_types::SupportedLanguages;
use lsproxy::manager::{
    check_referenced_symbols_supported, check_workspace_file, combine_file_lists, detect_language,
    detect_languages_in_workspace, health_check, health_languages, list_files, resolve_request, LspManagerError, Manager,
};

#[test]
fn languages_are_told_by_extension() {
    assert_eq!(detect_language("a/b.py"), Ok(SupportedLanguages::Python));
    assert_eq!(detect_language("x.tsx"), Ok(SupportedLanguages::TypeScriptJavaScript));
    assert_eq!(detect_language("lib.rs"), Ok(SupportedLanguages::Rust));
    assert_eq!(detect_language("h.hpp"), Ok(SupportedLanguages::CPP));
    assert_eq!(detect_language("A.java"), Ok(SupportedLanguages::Java));
    assert_eq!(detect_language("m.go"), Ok(SupportedLanguages::Golang));
    assert_eq!(detect_language("i.php"), Ok(SupportedLanguages::PHP));
    assert_eq!(detect_language("README"), Err(LspManagerError::UnsupportedFileType("README".to_string())));
    assert_eq!(detect_language("notes.md"), Err(LspManagerError::UnsupportedFileType("notes.md".to_string())));
}

#[test]
fn errors_have_messages_and_statuses() {
    let e = LspManagerError::FileNotFound("a.py".to_string());
    assert_eq!(e.message(), "File 'a.py' not found in workspace");
    let (status, body) = e.into_http_response();
    assert_eq!(status, 400);
    assert_eq!(body.error, "File not found: a.py");
    let e = LspManagerError::LspClientNotFound(SupportedLanguages::Rust);
    assert_eq!(e.message(), "LSP client not found for Rust");
    assert_eq!(e.http_status(), 500);
    let e = LspManagerError::NotImplemented("x".to_string());
    assert_eq!(e.http_status(), 501);
    assert_eq!(e.message(), "Not implemented: x");
}

#[test]
fn workspace_files_are_listed_sorted_and_relative() {
    let lists = vec![
        vec!["/mnt/workspace/z.py".to_string(), "/mnt/workspace/a/b.py".to_string()],
        vec!["/mnt/workspace/m.rs".to_string(), "/elsewhere/x.rs".to_string()],
    ];
    assert_eq!(list_files(&lists, "/mnt/workspace"), vec!["/elsewhere/x.rs", "a/b.py", "m.rs", "z.py"]);
    assert_eq!(combine_file_lists(vec![vec!["b".to_string()], vec!["a".to_string(), "b".to_string()]]), vec!["a", "b", "b"]);
}

#[test]
fn requests_resolve_to_a_running_server() {
    let mut m = Manager::new();
    m.register_client(SupportedLanguages::Python);
    let files = vec!["main.py".to_string(), "lib.rs".to_string(), "notes".to_string()];
    assert_eq!(
        resolve_request(&m, &files, "main.py", "/mnt/workspace"),
        Ok((SupportedLanguages::Python, "/mnt/workspace/main.py".to_string()))
    );
    assert_eq!(
        resolve_request(&m, &files, "other.py", "/mnt/workspace"),
        Err(LspManagerError::FileNotFound("other.py".to_string()))
    );
    assert_eq!(
        resolve_request(&m, &files, "lib.rs", "/mnt/workspace"),
        Err(LspManagerError::LspClientNotFound(SupportedLanguages::Rust))
    );
    assert_eq!(
        resolve_request(&m, &files, "notes", "/mnt/workspace"),
        Err(LspManagerError::InternalError(
            "Language detection failed: Unsupported file type: /mnt/workspace/notes".to_string()
        ))
    );
    assert!(check_workspace_file(&files, "lib.rs").is_ok());
}

#[test]
fn referenced_symbols_need_python_or_typescript() {
    assert!(check_referenced_symbols_supported(SupportedLanguages::Python).is_ok());
    assert!(check_referenced_symbols_supported(SupportedLanguages::Rust).is_err());
}

#[test]
fn languages_found_in_the_workspace_in_detection_order() {
    let found = vec![true, false, true, false, false, false, true];
    assert_eq!(
        detect_languages_in_workspace(&found),
        vec![SupportedLanguages::Python, SupportedLanguages::Rust, SupportedLanguages::PHP]
    );
    let mut m = Manager::new();
    m.register_client(SupportedLanguages::Rust);
    let health = health_languages(&m);
    assert_eq!(health.len(), 7);
    assert_eq!(health[2], (SupportedLanguages::Rust, true));
    assert_eq!(health[0], (SupportedLanguages::Python, false));
    assert_eq!(m.languages_to_start(&vec![SupportedLanguages::Rust, SupportedLanguages::Java]), vec![SupportedLanguages::Java]);
}

#[test]
fn health_reports_the_running_servers() {
    let mut m = Manager::new();
    m.register_client(SupportedLanguages::Rust);
    let h = health_check(&m, "1.2.3");
    assert_eq!(h.status, "ok");
    assert_eq!(h.version, "1.2.3");
    assert!(h.languages.contains(&(SupportedLanguages::Rust, true)));
    assert!(h.languages.contains(&(SupportedLanguages::Python, false)));
}

#[test]
fn servers_start_in_detection_order_once_each() {
    let mut m = Manager::new();
    m.register_client(SupportedLanguages::Python);
    let detected = vec![
        SupportedLanguages::Rust,
        SupportedLanguages::Python,
        SupportedLanguages::Rust,
        SupportedLanguages::Java,
    ];
    let first = m.languages_to_start(&detected);
    assert_eq!(first, vec![SupportedLanguages::Rust, SupportedLanguages::Java]);
    for lang in first {
        m.register_client(lang);
    }
    assert!(m.languages_to_start(&detected).is_empty());
}

#[test]
fn a_whole_start_run_leaves_nothing_to_start() {
    let mut m = Manager::new();
    m.register_client(SupportedLanguages::Golang);
    let detected = vec![SupportedLanguages::Python, SupportedLanguages::Golang, SupportedLanguages::PHP];
    let to_start = m.languages_to_start(&detected);
    assert_eq!(to_start, vec![SupportedLanguages::Python, SupportedLanguages::PHP]);
    m.register_clients(&to_start);
    assert!(m.languages_to_start(&detected).is_empty());
    assert!(m.get_client(SupportedLanguages::Golang) && m.get_client(SupportedLanguages::PHP));
    assert!(!m.get_client(SupportedLanguages::Rust));
}
