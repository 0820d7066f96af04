use lsproxy::api_types::{FilePosition, FileRange, Identifier, Position, Range, Symbol};
use lsproxy::ast_grep::{Location, LocationLink};
use lsproxy::handlers::{
    definition_positions, filter_references, find_referenced_symbols, reference_code_contexts, reference_context_range,
    sort_definition_response, workspace_definitions, GotoDefinitionResponse,
};

const MOUNT: &str = "/mnt/workspace";

fn loc(path: &str, line: u32, character: u32) -> Location {
    Location {
        uri: format!("file://{}/{}", MOUNT, path),
        range: Range { start: Position { line, character }, end: Position { line, character: character + 3 } },
    }
}

fn fpos(path: &str, line: u32, character: u32) -> FilePosition {
    FilePosition { path: path.to_string(), position: Position { line, character } }
}

#[test]
fn definition_positions_are_relative_to_the_mount() {
    let r = GotoDefinitionResponse::Scalar(loc("graph.py", 0, 6));
    assert_eq!(definition_positions(&r, MOUNT), vec![fpos("graph.py", 0, 6)]);
    let links = GotoDefinitionResponse::Link(vec![LocationLink {
        target_uri: format!("file://{}/a/b.py", MOUNT),
        target_range: Range { start: Position { line: 4, character: 2 }, end: Position { line: 4, character: 9 } },
    }]);
    assert_eq!(definition_positions(&links, MOUNT), vec![fpos("a/b.py", 4, 2)]);
}

#[test]
fn definitions_are_sorted_by_path_line_and_character() {
    let r = GotoDefinitionResponse::Array(vec![loc("b.py", 1, 0), loc("a.py", 7, 2), loc("a.py", 7, 1), loc("a.py", 3, 9)]);
    match sort_definition_response(r, MOUNT) {
        GotoDefinitionResponse::Array(v) => {
            assert_eq!(v, vec![loc("a.py", 3, 9), loc("a.py", 7, 1), loc("a.py", 7, 2), loc("b.py", 1, 0)]);
        }
        other => panic!("unexpected response {:?}", other),
    }
}

#[test]
fn references_outside_the_workspace_are_dropped_and_the_rest_sorted() {
    let files = vec!["main.py".to_string(), "graph.py".to_string()];
    let refs = vec![loc("main.py", 9, 0), loc("lib/site.py", 1, 0), loc("graph.py", 3, 4), loc("main.py", 2, 8), loc("main.py", 2, 1)];
    let kept = filter_references(refs, &files, MOUNT);
    // ordered by URI, then line; the server's order stays among equals
    assert_eq!(kept, vec![loc("graph.py", 3, 4), loc("main.py", 2, 8), loc("main.py", 2, 1), loc("main.py", 9, 0)]);
}

#[test]
fn context_range_saturates_at_both_ends() {
    let r = reference_context_range(&loc("a.py", 2, 0), 5);
    assert_eq!(r.start, Position { line: 0, character: 0 });
    assert_eq!(r.end, Position { line: 7, character: 0 });
    let mut far = loc("a.py", u32::MAX - 1, 0);
    far.range.end.line = u32::MAX - 1;
    let r = reference_context_range(&far, 10);
    assert_eq!(r.start.line, u32::MAX - 11);
    assert_eq!(r.end.line, u32::MAX);
}

fn id(name: &str, path: &str, line: u32) -> Identifier {
    Identifier {
        name: name.to_string(),
        range: FileRange { path: path.to_string(), start: Position { line, character: 0 }, end: Position { line, character: 4 } },
        kind: None,
    }
}

fn sym(name: &str, path: &str, line: u32) -> Symbol {
    Symbol {
        name: name.to_string(),
        kind: "function".to_string(),
        identifier_position: fpos(path, line, 4),
        range: FileRange { path: path.to_string(), start: Position { line, character: 0 }, end: Position { line: line + 2, character: 0 } },
    }
}

#[test]
fn referenced_symbols_are_sorted_into_three_lists() {
    let files = vec!["main.py".to_string(), "models.py".to_string()];
    let entries = vec![
        (id("User", "main.py", 9), vec![fpos("models.py", 3, 6)]),
        (id("print", "main.py", 4), vec![fpos("builtins.pyi", 100, 4)]),
        (id("helper", "main.py", 2), vec![fpos("models.py", 20, 4)]),
        (id("ghost", "main.py", 1), vec![]),
        (id("lost", "main.py", 7), vec![fpos("models.py", 50, 0)]),
    ];
    let found = vec![vec![sym("User", "models.py", 3)], vec![], vec![sym("helper", "models.py", 20)], vec![], vec![]];
    let r = find_referenced_symbols(entries, &files, found);
    let ws: Vec<&str> = r.workspace_symbols.iter().map(|w| w.reference.name.as_str()).collect();
    assert_eq!(ws, vec!["helper", "User"]);
    assert_eq!(r.workspace_symbols[1].definitions, vec![sym("User", "models.py", 3)]);
    assert_eq!(r.external_symbols, vec![id("print", "main.py", 4)]);
    assert_eq!(r.not_found, vec![id("ghost", "main.py", 1), id("lost", "main.py", 7)]);
}

#[test]
fn only_definitions_in_workspace_files_are_looked_up() {
    let files = vec!["main.py".to_string()];
    let defs = vec![fpos("site.py", 1, 0), fpos("main.py", 3, 2), fpos("main.py", 8, 0)];
    assert_eq!(workspace_definitions(&defs, &files), vec![fpos("main.py", 3, 2), fpos("main.py", 8, 0)]);
}

#[test]
fn reference_contexts_pair_each_reference_with_its_source() {
    let refs = vec![loc("a.py", 2, 0), loc("b/c.py", 10, 4)];
    let v = reference_code_contexts(&refs, 1, vec!["one".to_string(), "two".to_string()], MOUNT);
    assert_eq!(v.len(), 2);
    assert_eq!(v[0].range, FileRange { path: "a.py".to_string(), start: Position { line: 1, character: 0 }, end: Position { line: 3, character: 0 } });
    assert_eq!(v[0].source_code, "one");
    assert_eq!(v[1].range, FileRange { path: "b/c.py".to_string(), start: Position { line: 9, character: 0 }, end: Position { line: 11, character: 0 } });
    assert_eq!(v[1].source_code, "two");
}
