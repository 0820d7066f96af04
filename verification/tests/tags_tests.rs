use lsproxy::tag_db::{ctags_command_args, CtagsClient, TagDatabase};
use lsproxy::tags::{parse_tags, parse_u32, parse_usize, split_char, tags_well_formed};

const MOUNT: &str = "/mnt/workspace";

fn sample() -> String {
    [
        "!_TAG_FILE_FORMAT\t2\t/extended format/",
        "AstarGraph\t/mnt/workspace/graph.py\t/^class AstarGraph(object):$/;\"\tclass\tline:1\tlanguage:Python\tend:60",
        "__init__\t/mnt/workspace/graph.py\t/^    def __init__(self):$/;\"\tmember\tline:4\tlanguage:Python\tend:21",
        "main\t/mnt/workspace/main.rs\t/^fn main() {$/;\"\tfunction\tline:3\tlanguage:Rust",
        "short\tonly_two_fields",
        "héllo\t/elsewhere/x.py\t/^é = héllo$/;\"\tvariable\tlanguage:Python",
    ]
    .join("\n")
}

#[test]
fn ctags_output_is_read_into_columns() {
    let text = sample();
    assert!(tags_well_formed(&text));
    let c = parse_tags(&text, MOUNT);
    assert_eq!(c.names, vec!["AstarGraph", "__init__", "main", "héllo"]);
    assert_eq!(c.kinds, vec!["class", "member", "function", "variable"]);
    assert_eq!(c.languages, vec!["Python", "Python", "Rust", "Python"]);
    assert_eq!(c.files, vec!["graph.py", "graph.py", "main.rs", "/elsewhere/x.py"]);
    assert_eq!(c.start_lines, vec![0, 3, 2, 0]);
    // byte offsets of the name within the line
    assert_eq!(c.start_characters, vec![6, 8, 3, 5]);
    assert_eq!(c.end_lines, vec![60, 21, 3, 1]);
}

#[test]
fn a_tag_line_without_kind_is_not_well_formed() {
    assert!(!tags_well_formed("name\tfile\tpattern"));
    assert!(!tags_well_formed("name\tfile\tpattern\tkind\tline:0"));
    assert!(tags_well_formed("!comment\tonly\tthree"));
}

#[test]
fn numbers_parse_as_rust_does() {
    let p = |s: &str| parse_u32(&s.chars().collect());
    assert_eq!(p("42"), Some(42));
    assert_eq!(p("+7"), Some(7));
    assert_eq!(p("4294967295"), Some(u32::MAX));
    assert_eq!(p("4294967296"), None);
    assert_eq!(p(""), None);
    assert_eq!(p("+"), None);
    assert_eq!(p("-1"), None);
    assert_eq!(p("1a"), None);
    assert_eq!(parse_usize(&"0012".chars().collect()), Some(12));
}

#[test]
fn split_keeps_empty_pieces() {
    let pieces: Vec<String> = split_char(&"a\t\tb\t".chars().collect(), '\t').into_iter().map(|p| p.into_iter().collect()).collect();
    assert_eq!(pieces, vec!["a", "", "b", ""]);
}

#[test]
fn the_database_answers_by_file_in_line_order() {
    let db = TagDatabase::new().unwrap();
    let mut client = CtagsClient { tags: db };
    let text = sample();
    client.load(&text, MOUNT).unwrap();
    let symbols = client.get_file_symbols("graph.py").unwrap();
    let names: Vec<&str> = symbols.iter().map(|s| s.name.as_str()).collect();
    assert_eq!(names, vec!["AstarGraph", "__init__"]);
    assert_eq!(symbols[0].kind, "class");
    assert_eq!(symbols[0].identifier_position.path, "graph.py");
    assert_eq!(symbols[0].identifier_position.position.line, 0);
    assert_eq!(symbols[0].identifier_position.position.character, 6);
    assert_eq!(symbols[1].identifier_position.position.line, 3);
    assert_eq!(symbols[1].identifier_position.position.character, 8);
    let mains = client.tags.find_symbol("main").unwrap();
    assert_eq!(mains.len(), 1);
    assert_eq!(mains[0].range.end.line, 3);
    client.tags.clear();
    assert!(client.get_file_symbols("graph.py").unwrap().is_empty());
}

#[test]
fn ctags_runs_with_fixed_options_then_the_files() {
    let args = ctags_command_args(&vec!["/w/a.py".to_string()]);
    assert_eq!(
        args,
        vec![
            "--map-typescript=+.tsx",
            "--fields=+neKl",
            "--python-kinds=-iIx",
            "--rust-kinds=-n",
            "--output-format=u-ctags",
            "--quiet",
            "-f -",
            "/w/a.py"
        ]
    );
}

#[test]
fn watched_changes_to_tagged_files_match() {
    let excl = vec!["**/.*".to_string()];
    assert_eq!(CtagsClient::event_matches("/w/src/a.py", &excl), Some(true));
    assert_eq!(CtagsClient::event_matches("/w/.hidden.py", &excl), Some(false));
    assert_eq!(CtagsClient::event_matches("/w/README.md", &excl), Some(false));
}

#[test]
fn an_empty_database_answers_with_no_symbols() {
    let db = TagDatabase::new().unwrap();
    assert!(db.find_symbol("anything").unwrap().is_empty());
    assert!(db.get_file_symbols("a.py").unwrap().is_empty());
}
