use lsproxy::compile_commands::{
    cmake_file_flags_from, contains_str, find_include_dirs, find_source_files, generate_compile_commands, parse_cmakelists,
    source_file_patterns, split_whitespace,
};

#[test]
fn words_are_split_on_white_space() {
    assert_eq!(split_whitespace("  -Wall\t-O2 \n -g  "), vec!["-Wall", "-O2", "-g"]);
    assert!(split_whitespace("   ").is_empty());
    assert!(contains_str("${FLAGS}", "${"));
    assert!(!contains_str("-O2", "$<"));
}

#[test]
fn cmake_flags_are_read_in_order() {
    let a = "cmake_minimum_required(VERSION 3.10)\nset(CMAKE_CXX_STANDARD 17)\nadd_compile_options(-Wall ${EXTRA} -O2)\nadd_compile_options($<$<CONFIG:Debug>:-g> -fPIC)\n".to_string();
    let b = "add_compile_options(-Werror)".to_string();
    let flags = parse_cmakelists(&vec![a, b]).unwrap();
    assert_eq!(flags, vec!["-std=c++17", "-Wall", "-O2", "-fPIC", "-Werror"]);
    assert_eq!(parse_cmakelists(&vec!["project(x)".to_string()]).unwrap(), Vec::<String>::new());
}

#[test]
fn include_dirs_are_listed_once() {
    let found = vec![("/p/include".to_string(), true), ("/p/include.txt".to_string(), false), ("/p/lib/include".to_string(), true)];
    let cmake = vec!["/p/CMakeLists.txt".to_string(), "/p/lib/include/CMakeLists.txt".to_string()];
    let mut dirs = find_include_dirs(&found, &cmake);
    dirs.sort();
    assert_eq!(dirs, vec!["/p", "/p/include", "/p/lib/include"]);
}

#[test]
fn source_files_come_from_the_search() {
    assert_eq!(source_file_patterns(), vec!["**/*.cpp", "**/*.cc", "**/*.cxx", "**/*.c"]);
    assert_eq!(find_source_files(Ok(vec!["/p/a.cpp".to_string()])), vec!["/p/a.cpp"]);
    assert!(find_source_files(Err("no such directory".to_string())).is_empty());
}

#[test]
fn compile_commands_name_compiler_includes_flags_and_file() {
    let cmds = generate_compile_commands(
        "/p",
        &vec!["-std=c++17".to_string(), "-Wall".to_string()],
        &vec!["/p/include".to_string(), "/p".to_string()],
        &vec!["/p/a.cpp".to_string(), "/p/b.cc".to_string()],
    );
    assert_eq!(cmds.len(), 2);
    assert_eq!(cmds[0].directory, "/p");
    assert_eq!(cmds[0].file, "/p/a.cpp");
    assert_eq!(cmds[0].command, "/usr/bin/c++ -I/p/include -I/p -std=c++17 -Wall -c /p/a.cpp");
    assert_eq!(cmds[1].command, "/usr/bin/c++ -I/p/include -I/p -std=c++17 -Wall -c /p/b.cc");
}

#[test]
fn compile_command_without_includes_or_flags_keeps_the_spaces() {
    let cmds = generate_compile_commands("/p", &vec![], &vec![], &vec!["/p/a.c".to_string()]);
    assert_eq!(cmds[0].command, "/usr/bin/c++   -c /p/a.c");
}

#[test]
fn flags_come_from_the_two_searches() {
    let opts = Some(vec![Some("-Wall ${EXTRA} -O2".to_string()), Some("$<CONFIG:x> -g".to_string())]);
    assert_eq!(
        cmake_file_flags_from(Some(Some(Some("17".to_string()))), opts),
        Some(vec!["-std=c++17".to_string(), "-Wall".to_string(), "-O2".to_string(), "-g".to_string()])
    );
    assert_eq!(cmake_file_flags_from(Some(None), Some(vec![])), Some(vec![]));
    assert_eq!(cmake_file_flags_from(None, Some(vec![])), None);
    assert_eq!(cmake_file_flags_from(Some(Some(None)), Some(vec![])), None);
    assert_eq!(cmake_file_flags_from(Some(None), Some(vec![None])), None);
    assert_eq!(cmake_file_flags_from(Some(None), None), None);
}
