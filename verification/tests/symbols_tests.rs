use lsproxy::api_types::{Position, Range};
use lsproxy::ast_grep::Location;
use lsproxy::symbols::{
    flatten_nested_symbols, symbol_kind_to_string, uri_to_path_str, DocumentSymbol, DocumentSymbolResponse,
    SimpleSymbolResponse, SupportedLSP, SymbolInformation, WorkspaceSymbol, WorkspaceSymbolLocation,
    WorkspaceSymbolResponse,
};

fn range(line: u32, character: u32) -> Range {
    Range { start: Position { line, character }, end: Position { line, character: character + 1 } }
}

fn doc(name: &str, kind: i32, line: u32, children: Option<Vec<DocumentSymbol>>) -> DocumentSymbol {
    DocumentSymbol { name: name.to_string(), kind, range: range(line, 0), selection_range: range(line, 4), children }
}

#[test]
fn symbol_kinds_have_names() {
    assert_eq!(symbol_kind_to_string(1), "file");
    assert_eq!(symbol_kind_to_string(5), "class");
    assert_eq!(symbol_kind_to_string(12), "function");
    assert_eq!(symbol_kind_to_string(22), "enum_member");
    assert_eq!(symbol_kind_to_string(26), "type_parameter");
    assert_eq!(symbol_kind_to_string(0), "unknown");
    assert_eq!(symbol_kind_to_string(27), "unknown");
}

#[test]
fn nested_symbols_come_each_before_its_children() {
    let tree = vec![
        doc("A", 5, 0, Some(vec![doc("a1", 6, 1, None), doc("a2", 6, 5, Some(vec![doc("x", 13, 6, None)]))])),
        doc("B", 12, 10, Some(vec![])),
    ];
    let flat = flatten_nested_symbols(&tree, "m.py");
    let names: Vec<&str> = flat.iter().map(|s| s.name.as_str()).collect();
    assert_eq!(names, vec!["A", "a1", "a2", "x", "B"]);
    assert_eq!(flat[3].kind, "variable");
    assert_eq!(flat[3].location.path, "m.py");
    assert_eq!(flat[3].location.identifier_start_line, 6);
    assert_eq!(flat[3].location.identifier_start_character, 4);
}

#[test]
fn flat_document_symbols_are_placed_in_the_file() {
    let infos = vec![SymbolInformation {
        name: "f".to_string(),
        kind: 12,
        location: Location { uri: "file:///elsewhere/f.py".to_string(), range: range(3, 2) },
    }];
    let r = SimpleSymbolResponse::new(&DocumentSymbolResponse::Flat(infos), "m.py", "[]".to_string());
    assert_eq!(r.symbols.len(), 1);
    assert_eq!(r.symbols[0].location.path, "m.py");
    assert_eq!(r.symbols[0].location.identifier_start_line, 3);
    assert_eq!(r.raw_response, "[]");
}

#[test]
fn uris_are_made_relative_to_the_working_and_mount_directories() {
    assert_eq!(uri_to_path_str("file:///mnt/repo/src/a.py", "/home/me"), "src/a.py");
    assert_eq!(uri_to_path_str("file:///home/me/b.py", "/home/me"), "b.py");
    assert_eq!(uri_to_path_str("file:///other/c.py", "/home/me"), "/other/c.py");
}

#[test]
fn workspace_symbols_without_range_start_at_the_top() {
    let responses = vec![WorkspaceSymbolResponse::Nested(vec![WorkspaceSymbol {
        name: "W".to_string(),
        kind: 5,
        location: WorkspaceSymbolLocation::UriOnly("file:///mnt/repo/w.py".to_string()),
    }])];
    let r = SimpleSymbolResponse::from_workspace_responses(&responses, "null".to_string(), "/home/me");
    assert_eq!(r.symbols.len(), 1);
    assert_eq!(r.symbols[0].location.path, "w.py");
    assert_eq!(r.symbols[0].location.identifier_start_line, 0);
    assert_eq!(r.symbols[0].kind, "class");
}

#[test]
fn first_language_names() {
    assert_eq!(SupportedLSP::Rust.name(), "rust");
    assert_eq!(SupportedLSP::from_name("python"), Some(SupportedLSP::Python));
    assert_eq!(SupportedLSP::from_name("Python"), None);
}
