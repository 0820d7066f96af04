use lsproxy::api_types::{FilePosition, FileRange, FindIdentifierRequest, Identifier, Position};
use lsproxy::handlers::find_identifier;
use lsproxy::identifiers::{distances_fit, find_identifier_at_position, PositionError};

fn ident(name: &str, sl: u32, sc: u32, el: u32, ec: u32) -> Identifier {
    Identifier {
        name: name.to_string(),
        range: FileRange {
            path: "main.py".to_string(),
            start: Position { line: sl, character: sc },
            end: Position { line: el, character: ec },
        },
        kind: None,
    }
}

fn at(line: u32, character: u32) -> FilePosition {
    FilePosition { path: "main.py".to_string(), position: Position { line, character } }
}

#[test]
fn exact_identifier_is_found() {
    let ids = vec![ident("a", 0, 0, 0, 1), ident("graph", 1, 4, 1, 9), ident("graph", 1, 4, 1, 9)];
    let found = find_identifier_at_position(ids, &at(1, 6)).unwrap();
    assert_eq!(found, ident("graph", 1, 4, 1, 9));
}

#[test]
fn identifier_in_another_file_is_not_at_the_position() {
    let mut other = ident("x", 0, 0, 0, 5);
    other.range.path = "other.py".to_string();
    let r = find_identifier_at_position(vec![other], &at(0, 2));
    assert!(r.is_err());
}

#[test]
fn closest_three_are_given_nearest_first() {
    // distances from (10, 0): 1000+? lines count a hundred times characters
    let ids = vec![
        ident("far", 0, 0, 0, 3),     // 10 lines away: 1000
        ident("near", 9, 0, 9, 4),    // 1 line: 100
        ident("nearer", 10, 5, 10, 9), // same line, 5 characters: 5
        ident("tie", 11, 0, 11, 2),   // 1 line: 100, listed after "near"
        ident("farther", 30, 0, 30, 1),
    ];
    match find_identifier_at_position(ids, &at(10, 0)) {
        Err(PositionError::IdentifierNotFound { closest }) => {
            let names: Vec<&str> = closest.iter().map(|i| i.name.as_str()).collect();
            assert_eq!(names, vec!["nearer", "near", "tie"]);
        }
        Ok(_) => panic!("no identifier lies at the position"),
    }
}

#[test]
fn fewer_than_three_identifiers_all_come_back() {
    let ids = vec![ident("b", 5, 0, 5, 1), ident("a", 1, 0, 1, 1)];
    match find_identifier_at_position(ids, &at(0, 0)) {
        Err(PositionError::IdentifierNotFound { closest }) => {
            assert_eq!(closest, vec![ident("a", 1, 0, 1, 1), ident("b", 5, 0, 5, 1)]);
        }
        Ok(_) => panic!("no identifier lies at the position"),
    }
}

#[test]
fn find_identifier_without_position_lists_all_of_the_name() {
    let ids = vec![ident("graph", 0, 0, 0, 5), ident("node", 1, 0, 1, 4), ident("graph", 2, 0, 2, 5)];
    let req = FindIdentifierRequest { name: "graph".to_string(), path: "main.py".to_string(), position: None };
    let r = find_identifier(ids, &req);
    assert_eq!(r.identifiers, vec![ident("graph", 0, 0, 0, 5), ident("graph", 2, 0, 2, 5)]);
}

#[test]
fn find_identifier_with_position_gives_the_one_there() {
    let ids = vec![ident("graph", 0, 0, 0, 5), ident("graph", 2, 0, 2, 5)];
    let req = FindIdentifierRequest {
        name: "graph".to_string(),
        path: "main.py".to_string(),
        position: Some(Position { line: 2, character: 3 }),
    };
    let r = find_identifier(ids, &req);
    assert_eq!(r.identifiers, vec![ident("graph", 2, 0, 2, 5)]);
}

#[test]
fn find_identifier_with_position_elsewhere_gives_closest() {
    let ids = vec![ident("graph", 0, 0, 0, 5), ident("graph", 20, 0, 20, 5), ident("other", 3, 0, 3, 5)];
    let req = FindIdentifierRequest {
        name: "graph".to_string(),
        path: "main.py".to_string(),
        position: Some(Position { line: 3, character: 0 }),
    };
    let r = find_identifier(ids, &req);
    assert_eq!(r.identifiers, vec![ident("graph", 0, 0, 0, 5), ident("graph", 20, 0, 20, 5)]);
}

#[test]
fn find_identifier_with_no_such_name_gives_nothing() {
    let ids = vec![ident("graph", 0, 0, 0, 5)];
    let req = FindIdentifierRequest {
        name: "missing".to_string(),
        path: "main.py".to_string(),
        position: Some(Position { line: 0, character: 0 }),
    };
    assert!(find_identifier(ids, &req).identifiers.is_empty());
}

#[test]
fn distances_fit_only_when_they_stay_in_range() {
    let ids = vec![ident("a", 0, 0, 0, 1), ident("b", 3, 2, 3, 5)];
    assert!(distances_fit(&ids, &Position { line: 10, character: 4 }));
    assert!(!distances_fit(&ids, &Position { line: 30_000_000, character: 0 }));
    assert!(distances_fit(&Vec::new(), &Position { line: u32::MAX, character: u32::MAX }));
}
