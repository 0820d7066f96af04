//! What each language server is started with: the files it is given, the files that mark a
//! project root, the workspace folders it is told of, and the documents opened for it.
use vstd::prelude::*;
use crate::api_types::SupportedLanguages;
use crate::paths::{file_uri, is_absolute_path, join_path, opt_view, path_file_name, spec_file_uri, spec_join_path, spec_path_file_name};

verus! {

/// The views of a list of strings.
pub open spec fn string_views(v: Seq<String>) -> Seq<Seq<char>> {
    v.map_values(|s: String| s@)
}

fn strings_of(items: &[&str]) -> (r: Vec<String>)
    ensures
        r@.len() == items@.len(),
        forall|i: int| 0 <= i < items@.len() ==> #[trigger] r@[i]@ == items@[i]@,
{
    let mut r: Vec<String> = Vec::new();
    let mut i: usize = 0;
    while i < items.len()
        invariant
            i <= items@.len(),
            r@.len() == i,
            forall|k: int| 0 <= k < i ==> #[trigger] r@[k]@ == items@[k]@,
        decreases items@.len() - i,
    {
        r.push(items[i].to_owned());
        i = i + 1;
    }
    r
}

/// The paths left out of every workspace: dependencies, caches, hidden files and build
/// output.
pub open spec fn default_exclude_spec() -> Seq<Seq<char>> {
    seq!["**/node_modules"@, "**/__pycache__"@, "**/.*"@, "**/dist"@, "**/target"@, "**/build"@, ".git"@]
}

/// The paths left out of every workspace.
pub fn default_exclude_patterns() -> (r: Vec<String>)
    ensures
        string_views(r@) == default_exclude_spec(),
{
    let r = strings_of(&["**/node_modules", "**/__pycache__", "**/.*", "**/dist", "**/target", "**/build", ".git"]);
    assert(string_views(r@) =~= default_exclude_spec());
    r
}

/// The patterns of a language's source files.
pub open spec fn file_patterns_spec(lang: SupportedLanguages) -> Seq<Seq<char>> {
    match lang {
        SupportedLanguages::Python => seq!["**/*.py"@, "**/*.pyx"@, "**/*.pyi"@],
        SupportedLanguages::TypeScriptJavaScript => seq!["**/*.ts"@, "**/*.tsx"@, "**/*.js"@, "**/*.jsx"@],
        SupportedLanguages::Rust => seq!["**/*.rs"@],
        SupportedLanguages::CPP => seq![
            "**/*.cpp"@,
            "**/*.cc"@,
            "**/*.c"@,
            "**/*.cxx"@,
            "**/*.h"@,
            "**/*.hpp"@,
            "**/*.hxx"@,
            "**/*.hh"@,
        ],
        SupportedLanguages::Java => seq!["**/*.java"@],
        SupportedLanguages::Golang => seq!["**/*.go"@],
        SupportedLanguages::PHP => seq!["**/*.php"@],
    }
}

/// The patterns of a language's source files.
pub fn file_patterns(lang: SupportedLanguages) -> (r: Vec<String>)
    ensures
        string_views(r@) == file_patterns_spec(lang),
{
    let r = match lang {
        SupportedLanguages::Python => strings_of(&["**/*.py", "**/*.pyx", "**/*.pyi"]),
        SupportedLanguages::TypeScriptJavaScript => strings_of(&["**/*.ts", "**/*.tsx", "**/*.js", "**/*.jsx"]),
        SupportedLanguages::Rust => strings_of(&["**/*.rs"]),
        SupportedLanguages::CPP => strings_of(
            &["**/*.cpp", "**/*.cc", "**/*.c", "**/*.cxx", "**/*.h", "**/*.hpp", "**/*.hxx", "**/*.hh"],
        ),
        SupportedLanguages::Java => strings_of(&["**/*.java"]),
        SupportedLanguages::Golang => strings_of(&["**/*.go"]),
        SupportedLanguages::PHP => strings_of(&["**/*.php"]),
    };
    assert(string_views(r@) =~= file_patterns_spec(lang));
    r
}

/// The files that mark the root of a project in a language.
pub open spec fn root_files_spec(lang: SupportedLanguages) -> Seq<Seq<char>> {
    match lang {
        SupportedLanguages::Python => seq![
            "pyproject.toml"@,
            "setup.py"@,
            "setup.cfg"@,
            "requirements.txt"@,
            "Pipfile"@,
            "pyrightconfig.json"@,
        ],
        SupportedLanguages::TypeScriptJavaScript => seq!["tsconfig.json"@, "jsconfig.json"@, "package.json"@],
        SupportedLanguages::Rust => seq!["Cargo.toml"@],
        SupportedLanguages::CPP => seq![
            "makefile"@,
            ".clangd"@,
            ".clang-tidy"@,
            ".clang-format"@,
            "compile_commands.json"@,
            "compile_flags.txt"@,
            "configure.ac"@,
            ".git"@,
        ],
        SupportedLanguages::Java => seq!["gradlew"@, ".git"@, "mvnw"@],
        SupportedLanguages::Golang => seq!["go.mod"@, "go.work"@],
        SupportedLanguages::PHP => seq![".git"@],
    }
}

/// The files that mark the root of a project in a language.
pub fn get_root_files(lang: SupportedLanguages) -> (r: Vec<String>)
    ensures
        string_views(r@) == root_files_spec(lang),
{
    let r = match lang {
        SupportedLanguages::Python => strings_of(
            &["pyproject.toml", "setup.py", "setup.cfg", "requirements.txt", "Pipfile", "pyrightconfig.json"],
        ),
        SupportedLanguages::TypeScriptJavaScript => strings_of(&["tsconfig.json", "jsconfig.json", "package.json"]),
        SupportedLanguages::Rust => strings_of(&["Cargo.toml"]),
        SupportedLanguages::CPP => strings_of(
            &[
                "makefile",
                ".clangd",
                ".clang-tidy",
                ".clang-format",
                "compile_commands.json",
                "compile_flags.txt",
                "configure.ac",
                ".git",
            ],
        ),
        SupportedLanguages::Java => strings_of(&["gradlew", ".git", "mvnw"]),
        SupportedLanguages::Golang => strings_of(&["go.mod", "go.work"]),
        SupportedLanguages::PHP => strings_of(&[".git"]),
    };
    assert(string_views(r@) =~= root_files_spec(lang));
    r
}

/// The patterns by which the directories holding root files are found: each root file at any
/// depth.
pub fn root_file_patterns(root_files: &Vec<String>) -> (r: Vec<String>)
    ensures
        r@.len() == root_files@.len(),
        forall|i: int| 0 <= i < r@.len() ==> (#[trigger] r@[i])@ == "**/"@ + root_files@[i]@,
{
    let mut r: Vec<String> = Vec::new();
    let mut i: usize = 0;
    while i < root_files.len()
        invariant
            i <= root_files@.len(),
            r@.len() == i,
            forall|k: int| 0 <= k < i ==> (#[trigger] r@[k])@ == "**/"@ + root_files@[k]@,
        decreases root_files@.len() - i,
    {
        let mut p = String::new();
        p.append("**/");
        p.append(root_files[i].as_str());
        r.push(p);
        i = i + 1;
    }
    r
}

/// A workspace folder as a server is told of it.
#[derive(Debug, PartialEq, Eq)]
pub struct WorkspaceFolder {
    pub uri: String,
    pub name: String,
}

/// `f` is the folder for directory `dir` of the root: the URI of the joined path and its
/// last component (empty when it has none).
pub open spec fn is_folder_for(root_path: Seq<char>, dir: Seq<char>, f: WorkspaceFolder) -> bool {
    let p = spec_join_path(root_path, dir);
    &&& spec_file_uri(p) == Some(f.uri@)
    &&& f.name@ == match spec_path_file_name(p) {
        Some(n) => n,
        None => ""@,
    }
}

/// The folders for the directories, in order, leaving out those with no file URI.
pub open spec fn folders_spec(root_path: Seq<char>, dirs: Seq<String>, r: Seq<WorkspaceFolder>) -> bool
    decreases dirs.len(),
{
    if dirs.len() == 0 {
        r.len() == 0
    } else if spec_file_uri(spec_join_path(root_path, dirs.last()@)) is Some {
        r.len() > 0 && folders_spec(root_path, dirs.drop_last(), r.drop_last()) && is_folder_for(
            root_path,
            dirs.last()@,
            r.last(),
        )
    } else {
        folders_spec(root_path, dirs.drop_last(), r)
    }
}

/// The workspace folders for the directories that hold root files; when there are none,
/// the root itself, named by its path (when it has a file URI).
pub fn find_workspace_folders(root_path: &str, dirs: &Vec<String>) -> (r: Vec<WorkspaceFolder>)
    ensures
        exists|found: Seq<WorkspaceFolder>|
            folders_spec(root_path@, dirs@, found) && if found.len() > 0 {
                r@ == found
            } else {
                match spec_file_uri(root_path@) {
                    Some(u) => r@.len() == 1 && r@[0].uri@ == u && r@[0].name@ == root_path@,
                    None => r@.len() == 0,
                }
            },
        is_absolute_path(root_path@) && dirs@.len() > 0 ==> r@.len() == dirs@.len() && forall|k: int|
            0 <= k < dirs@.len() ==> is_folder_for(root_path@, dirs@[k]@, #[trigger] r@[k]),
        is_absolute_path(root_path@) && dirs@.len() == 0 ==> r@.len() == 1 && spec_file_uri(root_path@) == Some(
            r@[0].uri@,
        ) && r@[0].name@ == root_path@,
{
    let mut folders: Vec<WorkspaceFolder> = Vec::new();
    let mut i: usize = 0;
    while i < dirs.len()
        invariant
            i <= dirs@.len(),
            folders_spec(root_path@, dirs@.take(i as int), folders@),
            is_absolute_path(root_path@) ==> folders@.len() == i && forall|k: int|
                0 <= k < i ==> is_folder_for(root_path@, dirs@[k]@, #[trigger] folders@[k]),
        decreases dirs@.len() - i,
    {
        let ghost before = folders@;
        let folder_path = join_path(root_path, dirs[i].as_str());
        assert(is_absolute_path(root_path@) ==> is_absolute_path(folder_path@)) by {
            if is_absolute_path(root_path@) && !is_absolute_path(dirs@[i as int]@) {
                assert(folder_path@[0] == root_path@[0]);
            }
        }
        proof {
            reveal_strlit("");
            assert(dirs@.take(i + 1).drop_last() =~= dirs@.take(i as int));
            assert(dirs@.take(i + 1).last() == dirs@[i as int]);
        }
        match file_uri(folder_path.as_str()) {
            Some(uri) => {
                let fname = path_file_name(folder_path.as_str());
                let ghost fv = opt_view(fname);
                let name = match fname {
                    Some(n) => n,
                    None => String::new(),
                };
                assert(name@ == match fv {
                    Some(n) => n,
                    None => ""@,
                }) by {
                    reveal_strlit("");
                    if fv is None {
                        assert(name@ =~= ""@);
                    }
                }
                let ghost nm = name@;
                let ghost u = uri@;
                folders.push(WorkspaceFolder { uri, name });
                assert(folders@.drop_last() =~= before);
                assert(folders@.last().uri@ == u);
                assert(folder_path@ == spec_join_path(root_path@, dirs@[i as int]@));
                assert(spec_file_uri(folder_path@) == Some(u));
                assert(is_folder_for(root_path@, dirs@[i as int]@, folders@.last()));
                assert forall|k: int| 0 <= k < i + 1 && is_absolute_path(root_path@) implies is_folder_for(
                    root_path@,
                    dirs@[k]@,
                    #[trigger] folders@[k],
                ) by {
                    if k < i {
                        assert(folders@[k] == before[k]);
                    }
                }
            },
            None => {
                assert(spec_file_uri(spec_join_path(root_path@, dirs@[i as int]@)) is None);
            },
        }
        i = i + 1;
    }
    assert(dirs@.take(dirs@.len() as int) =~= dirs@);
    let ghost found = folders@;
    assert(is_absolute_path(root_path@) && dirs@.len() > 0 ==> folders@.len() > 0);
    if folders.len() == 0 {
        match file_uri(root_path) {
            Some(uri) => {
                folders.push(WorkspaceFolder { uri, name: root_path.to_owned() });
            },
            None => {},
        }
    }
    folders
}

/// A document as it is announced open to a server.
#[derive(Debug, PartialEq, Eq)]
pub struct TextDocumentItem {
    pub uri: String,
    pub language_id: String,
    pub version: i32,
    pub text: String,
}

/// The item that announces a document at an absolute path: its file URI, the language, the
/// first version and the text; an error for a path with no file URI.
pub fn text_document_item(file_path: &str, language_id: &str, text: String) -> (r: Result<TextDocumentItem, String>)
    ensures
        spec_file_uri(file_path@) is None <==> r is Err,
        r matches Err(m) ==> m@ == "Invalid file path"@,
        r matches Ok(item) ==> Some(item.uri@) == spec_file_uri(file_path@) && item.language_id@ == language_id@
            && item.version == 1 && item.text == text,
{
    match file_uri(file_path) {
        Some(uri) => Ok(TextDocumentItem { uri, language_id: language_id.to_owned(), version: 1, text }),
        None => Err("Invalid file path".to_owned()),
    }
}

/// The batches in which `n` documents are announced, at most `size` at a time: start and
/// end of each, in order; as few batches as cover all documents.
pub open spec fn batches_spec(n: nat, size: nat, r: Seq<(usize, usize)>) -> bool {
    &&& r.len() * size >= n
    &&& (r.len() == 0 || (r.len() - 1) * size < n)
    &&& forall|i: int|
        0 <= i < r.len() ==> (#[trigger] r[i]).0 == i * size && r[i].1 == if (i + 1) * size <= n {
            (i + 1) * size
        } else {
            n as int
        }
}

/// Splits `n` documents into batches of at most `size`.
pub fn did_open_batches(n: usize, size: usize) -> (r: Vec<(usize, usize)>)
    requires
        size > 0,
    ensures
        batches_spec(n as nat, size as nat, r@),
{
    let mut r: Vec<(usize, usize)> = Vec::new();
    let mut start: usize = 0;
    assert(r@.len() * size == 0) by (nonlinear_arith)
        requires
            r@.len() == 0,
    ;
    while start < n
        invariant
            size > 0,
            start <= n,
            start == if r@.len() * size <= n {
                r@.len() * size
            } else {
                n as int
            },
            r@.len() == 0 || (r@.len() - 1) * size < n,
            start < n ==> start == r@.len() * size,
            forall|i: int|
                0 <= i < r@.len() ==> (#[trigger] r@[i]).0 == i * size && r@[i].1 == if (i + 1) * size <= n {
                    (i + 1) * size
                } else {
                    n as int
                },
        decreases n - start,
    {
        let ghost k = r@.len();
        let end = if n - start > size {
            start + size
        } else {
            n
        };
        proof {
            assert((k + 1) * size == k * size + size) by (nonlinear_arith);
        }
        r.push((start, end));
        start = end;
    }
    proof {
        let k = r@.len();
        if k * size < n {
            assert(start == k * size);
        }
    }
    r
}

/// The views of a list of optional strings.
pub open spec fn opt_views(v: Seq<Option<String>>) -> Seq<Option<Seq<char>>> {
    v.map_values(|o: Option<String>| opt_view(o))
}

/// What parsing a JSON5 text with `json5::from_str` and looking up a key gives: an error
/// message when the text does not parse; otherwise, when the key holds an array, each of
/// its items as a string (`None` for an item that is not a string).
pub uninterp spec fn spec_json5_string_items(content: Seq<char>, key: Seq<char>) -> Result<Option<Seq<Option<Seq<char>>>>, Seq<char>>;

/// Parses the text with `json5::from_str` into a JSON value and reads the array under the
/// key. Claimed: the result is a function of the text and the key alone.
#[verifier::external_body]
fn json5_string_items(content: &str, key: &str) -> (r: Result<Option<Vec<Option<String>>>, String>)
    ensures
        match (r, spec_json5_string_items(content@, key@)) {
            (Ok(Some(v)), Ok(Some(w))) => opt_views(v@) == w,
            (Ok(None), Ok(None)) => true,
            (Err(a), Err(b)) => a@ == b,
            _ => false,
        },
{
    let v: serde_json::Value = json5::from_str(content).map_err(|e| e.to_string())?;
    Ok(v[key].as_array().map(|a| a.iter().map(|x| x.as_str().map(|s| s.to_string())).collect()))
}

/// The views of an optional list of optional strings.
pub open spec fn opt_vec_views(o: Option<Vec<Option<String>>>) -> Option<Seq<Option<Seq<char>>>> {
    match o {
        Some(v) => Some(opt_views(v@)),
        None => None,
    }
}

/// The strings among optional items, in order.
pub open spec fn present_strings(items: Seq<Option<Seq<char>>>) -> Seq<Seq<char>>
    decreases items.len(),
{
    if items.len() == 0 {
        seq![]
    } else {
        match items.last() {
            Some(s) => present_strings(items.drop_last()).push(s),
            None => present_strings(items.drop_last()),
        }
    }
}

fn keep_strings(items: Vec<Option<String>>) -> (r: Vec<String>)
    ensures
        string_views(r@) == present_strings(opt_views(items@)),
{
    let ghost iv = opt_views(items@);
    let mut r: Vec<String> = Vec::new();
    let mut i: usize = 0;
    while i < items.len()
        invariant
            i <= items@.len(),
            iv == opt_views(items@),
            string_views(r@) == present_strings(iv.take(i as int)),
        decreases items@.len() - i,
    {
        assert(iv.take(i + 1).drop_last() =~= iv.take(i as int));
        assert(iv.take(i + 1).last() == opt_view(items@[i as int]));
        match &items[i] {
            Some(s) => {
                let ghost before = string_views(r@);
                r.push(s.clone());
                assert(string_views(r@) =~= before.push(s@));
            },
            None => {},
        }
        i = i + 1;
    }
    assert(iv.take(items@.len() as int) =~= iv);
    r
}

/// The strings of the array under a key of a parsed configuration; none when the key holds
/// no array.
pub open spec fn config_strings(parsed: Option<Seq<Option<Seq<char>>>>) -> Seq<Seq<char>> {
    match parsed {
        Some(items) => present_strings(items),
        None => seq![],
    }
}

/// The patterns a TypeScript configuration gives: the strings of its `include` array, or
/// the TypeScript and JavaScript source patterns when there are none; the default exclude
/// patterns followed by the strings of its `exclude` array. An error when the text does not
/// parse as JSON5.
pub open spec fn tsconfig_patterns_spec(content: Seq<char>, r: Result<(Vec<String>, Vec<String>), String>) -> bool {
    match (spec_json5_string_items(content, "include"@), spec_json5_string_items(content, "exclude"@)) {
        (Ok(inc), Ok(exc)) => r matches Ok(p) && string_views(p.0@) == (if config_strings(inc).len() > 0 {
            config_strings(inc)
        } else {
            file_patterns_spec(SupportedLanguages::TypeScriptJavaScript)
        }) && string_views(p.1@) == default_exclude_spec() + config_strings(exc),
        (Err(m), _) => r matches Err(e) && e@ == m,
        (Ok(_), Err(m)) => r matches Err(e) && e@ == m,
    }
}

/// The include and exclude patterns for a TypeScript workspace, from the text of its
/// `tsconfig.json` (`{}` when there is none).
pub fn tsconfig_patterns(content: &str) -> (r: Result<(Vec<String>, Vec<String>), String>)
    ensures
        tsconfig_patterns_spec(content@, r),
{
    let inc = json5_string_items(content, "include")?;
    let exc = json5_string_items(content, "exclude")?;
    let ghost inc_v = opt_vec_views(inc);
    let ghost exc_v = opt_vec_views(exc);
    let mut include_patterns = match inc {
        Some(items) => keep_strings(items),
        None => Vec::new(),
    };
    assert(string_views(include_patterns@) == config_strings(inc_v));
    if include_patterns.len() == 0 {
        include_patterns = file_patterns(SupportedLanguages::TypeScriptJavaScript);
    }
    let extra = match exc {
        Some(items) => keep_strings(items),
        None => Vec::new(),
    };
    assert(string_views(extra@) == config_strings(exc_v));
    let mut exclude_patterns = default_exclude_patterns();
    let ghost base = string_views(exclude_patterns@);
    let mut i: usize = 0;
    while i < extra.len()
        invariant
            i <= extra@.len(),
            string_views(exclude_patterns@) == base + string_views(extra@.take(i as int)),
        decreases extra@.len() - i,
    {
        let ghost before = string_views(exclude_patterns@);
        exclude_patterns.push(extra[i].clone());
        assert(string_views(extra@.take(i + 1)) =~= string_views(extra@.take(i as int)).push(extra@[i as int]@));
        assert(string_views(exclude_patterns@) =~= before.push(extra@[i as int]@));
        i = i + 1;
    }
    assert(extra@.take(extra@.len() as int) =~= extra@);
    Ok((include_patterns, exclude_patterns))
}

/// The pattern by which the launcher of the Java server is found.
pub open spec fn launcher_pattern() -> Seq<char> {
    "/opt/jdtls/plugins/org.eclipse.equinox.launcher_*.jar"@
}

/// The launcher of the Java server, from what the search for it gave: the first match; an
/// error when the pattern could not be read, the first match could not be read, or nothing
/// matched.
pub fn select_launcher(pattern_error: Option<String>, first_match: Option<Result<String, String>>) -> (r: Result<String, String>)
    ensures
        match pattern_error {
            Some(e) => (r matches Err(m) && m@ == "Failed to read glob pattern: "@ + e@),
            None => match first_match {
                Some(Ok(p)) => r == Ok::<String, String>(p),
                Some(Err(e)) => (r matches Err(m) && m@ == "Error reading launcher jar path: "@ + e@),
                None => (r matches Err(m) && m@ == "No launcher jar found matching pattern: "@ + launcher_pattern()),
            },
        },
{
    if let Some(e) = pattern_error {
        let mut m = String::new();
        m.append("Failed to read glob pattern: ");
        m.append(e.as_str());
        return Err(m);
    }
    match first_match {
        Some(Ok(p)) => Ok(p),
        Some(Err(e)) => {
            let mut m = String::new();
            m.append("Error reading launcher jar path: ");
            m.append(e.as_str());
            Err(m)
        },
        None => {
            let mut m = String::new();
            m.append("No launcher jar found matching pattern: ");
            m.append("/opt/jdtls/plugins/org.eclipse.equinox.launcher_*.jar");
            Err(m)
        },
    }
}

} // verus!
