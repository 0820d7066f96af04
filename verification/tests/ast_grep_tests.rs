use lsproxy::api_types::{Position, Range};
use lsproxy::ast_grep::{
    definitions_in_file, identifier_from_match, symbol_from_match, AstGrepClient, AstGrepMatch, AstGrepPosition,
    AstGrepRange, ByteOffset, CharCount, Location, MetaVariable, MetaVariables, MultiVariables, SingleVariable,
};

fn rng(sl: u32, sc: u32, el: u32, ec: u32) -> AstGrepRange {
    AstGrepRange {
        byte_offset: ByteOffset { start: 0, end: 0 },
        start: AstGrepPosition { line: sl, column: sc },
        end: AstGrepPosition { line: el, column: ec },
    }
}

fn m(name: &str, rule: &str, name_range: AstGrepRange, context: Option<AstGrepRange>) -> AstGrepMatch {
    AstGrepMatch {
        text: format!("text of {}", name),
        range: name_range.clone(),
        file: "/mnt/workspace/src/main.py".to_string(),
        lines: String::new(),
        char_count: CharCount { leading: 0, trailing: 0 },
        language: "Python".to_string(),
        meta_variables: MetaVariables {
            single: SingleVariable {
                name: MetaVariable { text: name.to_string(), range: name_range },
                context: context.map(|r| MetaVariable { text: format!("context of {}", name), range: r }),
            },
            multi: MultiVariables { secondary: None },
        },
        rule_id: rule.to_string(),
        labels: None,
    }
}

#[test]
fn source_code_and_ranges_come_from_the_context() {
    let with = m("f", "function", rng(2, 4, 2, 5), Some(rng(2, 0, 9, 3)));
    assert_eq!(with.get_source_code(), "context of f");
    assert_eq!(with.get_context_range().end.line, 9);
    assert_eq!(with.get_identifier_range().start.column, 4);
    let without = m("g", "function", rng(1, 0, 1, 1), None);
    assert_eq!(without.get_source_code(), "text of g");
    assert_eq!(without.get_context_range().start.line, 1);
}

#[test]
fn a_match_contains_what_lies_in_its_context() {
    let outer = m("f", "function", rng(2, 4, 2, 5), Some(rng(2, 0, 9, 3)));
    let inner = m("x", "all-references", rng(5, 2, 5, 3), None);
    let after = m("y", "all-references", rng(9, 4, 9, 5), None);
    assert!(outer.contains(&inner));
    assert!(!outer.contains(&after));
    let loc = Location {
        uri: "file:///mnt/workspace/src/main.py".to_string(),
        range: Range { start: Position { line: 3, character: 0 }, end: Position { line: 3, character: 4 } },
    };
    assert!(outer.contains_location(&loc));
}

#[test]
fn callable_rules_depend_on_the_language() {
    let f = m("f", "function", rng(0, 0, 0, 1), None);
    assert!(f.is_callable());
    let v = m("v", "variable", rng(0, 0, 0, 1), None);
    assert!(!v.is_callable());
    let mut c = m("C", "class", rng(0, 0, 0, 1), None);
    assert!(c.is_callable());
    c.language = "Rust".to_string();
    assert!(!c.is_callable());
}

#[test]
fn symbols_and_identifiers_from_matches() {
    let f = m("f", "function", rng(2, 4, 2, 5), Some(rng(2, 0, 9, 3)));
    let s = symbol_from_match(&f, "/mnt/workspace");
    assert_eq!(s.name, "f");
    assert_eq!(s.kind, "function");
    assert_eq!(s.identifier_position.path, "src/main.py");
    assert_eq!(s.identifier_position.position, Position { line: 2, character: 4 });
    assert_eq!(s.range.start, Position { line: 2, character: 0 });
    assert_eq!(s.range.end, Position { line: 9, character: 3 });
    let id = identifier_from_match(&m("x", "all-identifiers", rng(4, 1, 4, 2), None), "/mnt/workspace");
    assert_eq!(id.kind, None);
    assert_eq!(id.range.start, Position { line: 4, character: 1 });
    let local = m("tmp", "local-variable", rng(3, 0, 3, 3), None);
    let symbols = definitions_in_file(&vec![f.clone(), local], "/mnt/workspace");
    assert_eq!(symbols.len(), 1);
}

#[test]
fn the_client_selects_symbols_and_references() {
    let client = AstGrepClient;
    let symbols = vec![m("a", "function", rng(0, 4, 0, 5), Some(rng(0, 0, 3, 0))), m("b", "function", rng(5, 4, 5, 5), Some(rng(5, 0, 9, 0)))];
    let found = client.get_symbol_match_from_position(symbols.clone(), &Position { line: 5, character: 4 }).unwrap();
    assert_eq!(found.meta_variables.single.name.text, "b");
    let missing = client.get_symbol_match_from_position(symbols, &Position { line: 5, character: 5 });
    assert_eq!(missing.unwrap_err(), "No symbol found for position");

    let symbol = m("b", "function", rng(5, 4, 5, 5), Some(rng(5, 0, 9, 0)));
    let refs = vec![
        m("x", "all-references", rng(6, 1, 6, 2), None),
        m("y", "function-call", rng(7, 1, 7, 2), None),
        m("z", "function-call", rng(12, 1, 12, 2), None),
    ];
    let narrow = client.get_references_contained_in_symbol_match(refs.clone(), &symbol, false);
    assert_eq!(narrow.len(), 1);
    assert_eq!(narrow[0].meta_variables.single.name.text, "y");
    let full = client.get_references_contained_in_symbol_match(refs, &symbol, true);
    assert_eq!(full.len(), 1);
    assert_eq!(full[0].meta_variables.single.name.text, "x");
}

#[test]
fn scan_results_are_ordered_by_line() {
    let client = AstGrepClient;
    let ms = vec![m("c", "r", rng(9, 0, 9, 1), None), m("a", "r", rng(1, 5, 1, 6), None), m("b", "r", rng(1, 0, 1, 1), None)];
    let sorted = client.sort_scan_results(ms);
    let names: Vec<&str> = sorted.iter().map(|x| x.meta_variables.single.name.text.as_str()).collect();
    assert_eq!(names, vec!["a", "b", "c"]);
}

#[test]
fn the_symbol_at_a_position_comes_with_its_references() {
    let f = m("f", "function", rng(2, 4, 2, 5), Some(rng(2, 0, 9, 3)));
    let g = m("g", "function", rng(12, 4, 12, 5), Some(rng(12, 0, 14, 3)));
    let inner = m("x", "call", rng(5, 2, 5, 3), None);
    let inner_all = m("y", "all-references", rng(6, 2, 6, 3), None);
    let outside = m("z", "call", rng(13, 2, 13, 3), None);
    let refs = vec![inner, inner_all, outside];
    let (symbol, found) = AstGrepClient
        .get_symbol_and_references(vec![f.clone(), g.clone()], refs.clone(), &Position { line: 2, character: 4 }, false)
        .unwrap();
    assert_eq!(symbol.meta_variables.single.name.text, "f");
    assert_eq!(found.len(), 1);
    assert_eq!(found[0].meta_variables.single.name.text, "x");
    let (_, found_all) = AstGrepClient
        .get_symbol_and_references(vec![f.clone(), g.clone()], refs.clone(), &Position { line: 2, character: 4 }, true)
        .unwrap();
    assert_eq!(found_all.len(), 1);
    assert_eq!(found_all[0].meta_variables.single.name.text, "y");
    let missing = AstGrepClient.get_symbol_and_references(vec![f, g], refs, &Position { line: 2, character: 5 }, false);
    assert_eq!(missing.err(), Some("No symbol found for position".to_string()));
}
