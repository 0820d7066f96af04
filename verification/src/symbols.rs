//! The simple forms in which symbols and locations from a language server are reported:
//! a path relative to the workspace, the start of the identifier, and a kind by name.
use vstd::prelude::*;
use crate::api_types::Range;
use crate::ast_grep::Location;
use crate::paths::{relative_path_spec, strip_path_prefix, uri_file_path, uri_path, uri_path_spec};

verus! {

/// The languages whose servers the first version of the service ran.
#[derive(Debug, Clone, Copy, PartialEq, Eq, Structural, Hash)]
pub enum SupportedLSP {
    Python,
    TypeScriptJavaScript,
    Rust,
}

/// The lower-case name of a language, as it is written and parsed.
pub open spec fn lsp_name_spec(l: SupportedLSP) -> Seq<char> {
    match l {
        SupportedLSP::Python => "python"@,
        SupportedLSP::TypeScriptJavaScript => "typescriptjavascript"@,
        SupportedLSP::Rust => "rust"@,
    }
}

impl SupportedLSP {
    /// The lower-case name of the language.
    pub fn name(&self) -> (r: String)
        ensures
            r@ == lsp_name_spec(*self),
    {
        match self {
            SupportedLSP::Python => "python".to_owned(),
            SupportedLSP::TypeScriptJavaScript => "typescriptjavascript".to_owned(),
            SupportedLSP::Rust => "rust".to_owned(),
        }
    }

    /// The language with the given lower-case name, if any.
    pub fn from_name(s: &str) -> (r: Option<SupportedLSP>)
        ensures
            r matches Some(l) ==> lsp_name_spec(l) == s@,
            r is None ==> (forall|l: SupportedLSP| lsp_name_spec(l) != s@),
    {
        proof {
            reveal_strlit("python");
            reveal_strlit("typescriptjavascript");
            reveal_strlit("rust");
        }
        if crate::text::str_eq(s, "python") {
            Some(SupportedLSP::Python)
        } else if crate::text::str_eq(s, "typescriptjavascript") {
            Some(SupportedLSP::TypeScriptJavaScript)
        } else if crate::text::str_eq(s, "rust") {
            Some(SupportedLSP::Rust)
        } else {
            proof {
                assert forall|l: SupportedLSP| lsp_name_spec(l) != s@ by {
                    match l {
                        SupportedLSP::Python => {},
                        SupportedLSP::TypeScriptJavaScript => {},
                        SupportedLSP::Rust => {},
                    }
                }
            }
            None
        }
    }
}

/// The directory under which the workspace is mounted, as the simple forms strip it.
pub open spec fn mount_dir_spec() -> Seq<char> {
    "/mnt/repo"@
}

/// The path a URI names, relative to the working directory when it lies under it, and then
/// to the mount directory when it lies under that.
pub open spec fn uri_to_path_str_spec(uri: Seq<char>, current_dir: Seq<char>) -> Seq<char> {
    relative_path_spec(relative_path_spec(uri_path_spec(uri), current_dir), mount_dir_spec())
}

/// The path a URI names, simplified as the simple forms report it.
pub fn uri_to_path_str(uri: &str, current_dir: &str) -> (r: String)
    ensures
        r@ == uri_to_path_str_spec(uri@, current_dir@),
{
    let path = match uri_file_path(uri) {
        Some(p) => p,
        None => match uri_path(uri) {
            Some(p) => p,
            None => uri.to_owned(),
        },
    };
    let simplified = match strip_path_prefix(path.as_str(), current_dir) {
        Some(rest) => rest,
        None => path,
    };
    match strip_path_prefix(simplified.as_str(), "/mnt/repo") {
        Some(rest) => rest,
        None => simplified,
    }
}

/// The name of a symbol kind, by its number in the protocol; `unknown` for other numbers.
pub open spec fn symbol_kind_name(kind: i32) -> Seq<char> {
    if kind == 1 {
        "file"@
    } else if kind == 2 {
        "module"@
    } else if kind == 3 {
        "namespace"@
    } else if kind == 4 {
        "package"@
    } else if kind == 5 {
        "class"@
    } else if kind == 6 {
        "method"@
    } else if kind == 7 {
        "property"@
    } else if kind == 8 {
        "field"@
    } else if kind == 9 {
        "constructor"@
    } else if kind == 10 {
        "enum"@
    } else if kind == 11 {
        "interface"@
    } else if kind == 12 {
        "function"@
    } else if kind == 13 {
        "variable"@
    } else if kind == 14 {
        "constant"@
    } else if kind == 15 {
        "string"@
    } else if kind == 16 {
        "number"@
    } else if kind == 17 {
        "boolean"@
    } else if kind == 18 {
        "array"@
    } else if kind == 19 {
        "object"@
    } else if kind == 20 {
        "key"@
    } else if kind == 21 {
        "null"@
    } else if kind == 22 {
        "enum_member"@
    } else if kind == 23 {
        "struct"@
    } else if kind == 24 {
        "event"@
    } else if kind == 25 {
        "operator"@
    } else if kind == 26 {
        "type_parameter"@
    } else {
        "unknown"@
    }
}

/// The name of a symbol kind.
pub fn symbol_kind_to_string(kind: i32) -> (r: String)
    ensures
        r@ == symbol_kind_name(kind),
{
    let s = if kind == 1 {
        "file"
    } else if kind == 2 {
        "module"
    } else if kind == 3 {
        "namespace"
    } else if kind == 4 {
        "package"
    } else if kind == 5 {
        "class"
    } else if kind == 6 {
        "method"
    } else if kind == 7 {
        "property"
    } else if kind == 8 {
        "field"
    } else if kind == 9 {
        "constructor"
    } else if kind == 10 {
        "enum"
    } else if kind == 11 {
        "interface"
    } else if kind == 12 {
        "function"
    } else if kind == 13 {
        "variable"
    } else if kind == 14 {
        "constant"
    } else if kind == 15 {
        "string"
    } else if kind == 16 {
        "number"
    } else if kind == 17 {
        "boolean"
    } else if kind == 18 {
        "array"
    } else if kind == 19 {
        "object"
    } else if kind == 20 {
        "key"
    } else if kind == 21 {
        "null"
    } else if kind == 22 {
        "enum_member"
    } else if kind == 23 {
        "struct"
    } else if kind == 24 {
        "event"
    } else if kind == 25 {
        "operator"
    } else if kind == 26 {
        "type_parameter"
    } else {
        "unknown"
    };
    s.to_owned()
}

/// Where an identifier starts.
#[derive(Debug, PartialEq, Eq)]
pub struct SimpleLocation {
    pub path: String,
    pub identifier_start_line: u32,
    pub identifier_start_character: u32,
}

/// A symbol by name, kind and the start of its identifier.
#[derive(Debug, PartialEq, Eq)]
pub struct SimpleSymbol {
    pub name: String,
    pub kind: String,
    pub location: SimpleLocation,
}

/// Information on a symbol, as a server lists it flat.
#[derive(Debug)]
pub struct SymbolInformation {
    pub name: String,
    pub kind: i32,
    pub location: Location,
}

/// A symbol in a tree of symbols, as a server lists a document's symbols nested.
#[derive(Debug)]
pub struct DocumentSymbol {
    pub name: String,
    pub kind: i32,
    pub range: Range,
    pub selection_range: Range,
    pub children: Option<Vec<DocumentSymbol>>,
}

/// Where a workspace symbol is: a full location, or only the URI of its file.
#[derive(Debug)]
pub enum WorkspaceSymbolLocation {
    Full(Location),
    UriOnly(String),
}

/// A symbol found in the workspace.
#[derive(Debug)]
pub struct WorkspaceSymbol {
    pub name: String,
    pub kind: i32,
    pub location: WorkspaceSymbolLocation,
}

/// What a server answers to a request for the symbols of a document.
#[derive(Debug)]
pub enum DocumentSymbolResponse {
    Flat(Vec<SymbolInformation>),
    Nested(Vec<DocumentSymbol>),
}

/// What a server answers to a request for the symbols of the workspace.
#[derive(Debug)]
pub enum WorkspaceSymbolResponse {
    Flat(Vec<SymbolInformation>),
    Nested(Vec<WorkspaceSymbol>),
}

/// The simple form of a definitions answer; `raw_response` is the answer's JSON text.
#[derive(Debug)]
pub struct SimpleGotoDefinitionResponse {
    pub raw_response: String,
    pub definitions: Vec<SimpleLocation>,
}

/// The simple form of a references answer.
#[derive(Debug)]
pub struct SimpleReferenceResponse {
    pub raw_response: String,
    pub references: Vec<SimpleLocation>,
}

/// The simple form of a symbols answer.
#[derive(Debug)]
pub struct SimpleSymbolResponse {
    pub raw_response: String,
    pub symbols: Vec<SimpleSymbol>,
}

/// `s` is the simple location of a location: its simplified path and the start of its range.
pub open spec fn is_simple_location(uri: Seq<char>, range: Range, current_dir: Seq<char>, s: SimpleLocation) -> bool {
    &&& s.path@ == uri_to_path_str_spec(uri, current_dir)
    &&& s.identifier_start_line == range.start.line
    &&& s.identifier_start_character == range.start.character
}

impl SimpleLocation {
    /// The simple form of a location.
    pub fn from_location(location: &Location, current_dir: &str) -> (r: SimpleLocation)
        ensures
            is_simple_location(location.uri@, location.range, current_dir@, r),
    {
        SimpleLocation {
            path: uri_to_path_str(location.uri.as_str(), current_dir),
            identifier_start_line: location.range.start.line,
            identifier_start_character: location.range.start.character,
        }
    }
}

/// `s` is the simple form of flat symbol information.
pub open spec fn is_simple_info(info: SymbolInformation, current_dir: Seq<char>, s: SimpleSymbol) -> bool {
    &&& s.name@ == info.name@
    &&& s.kind@ == symbol_kind_name(info.kind)
    &&& is_simple_location(info.location.uri@, info.location.range, current_dir, s.location)
}

/// `s` is the simple form of a workspace symbol; a symbol known only by its file's URI is
/// placed at the start of the file.
pub open spec fn is_simple_workspace_symbol(w: WorkspaceSymbol, current_dir: Seq<char>, s: SimpleSymbol) -> bool {
    &&& s.name@ == w.name@
    &&& s.kind@ == symbol_kind_name(w.kind)
    &&& match w.location {
        WorkspaceSymbolLocation::Full(l) => is_simple_location(l.uri@, l.range, current_dir, s.location),
        WorkspaceSymbolLocation::UriOnly(u) => s.location.path@ == uri_to_path_str_spec(u@, current_dir)
            && s.location.identifier_start_line == 0 && s.location.identifier_start_character == 0,
    }
}

impl SimpleSymbol {
    /// The simple form of flat symbol information.
    pub fn from_information(info: &SymbolInformation, current_dir: &str) -> (r: SimpleSymbol)
        ensures
            is_simple_info(*info, current_dir@, r),
    {
        SimpleSymbol {
            name: info.name.clone(),
            kind: symbol_kind_to_string(info.kind),
            location: SimpleLocation::from_location(&info.location, current_dir),
        }
    }

    /// The simple form of a workspace symbol.
    pub fn from_workspace_symbol(w: &WorkspaceSymbol, current_dir: &str) -> (r: SimpleSymbol)
        ensures
            is_simple_workspace_symbol(*w, current_dir@, r),
    {
        let location = match &w.location {
            WorkspaceSymbolLocation::Full(l) => SimpleLocation::from_location(l, current_dir),
            WorkspaceSymbolLocation::UriOnly(u) => SimpleLocation {
                path: uri_to_path_str(u.as_str(), current_dir),
                identifier_start_line: 0,
                identifier_start_character: 0,
            },
        };
        SimpleSymbol { name: w.name.clone(), kind: symbol_kind_to_string(w.kind), location }
    }
}

/// `s` is the entry for a nested document symbol: its name, kind, and the start of its
/// selection range, in the given file.
pub open spec fn is_nested_entry(d: DocumentSymbol, path: Seq<char>, s: SimpleSymbol) -> bool {
    &&& s.name@ == d.name@
    &&& s.kind@ == symbol_kind_name(d.kind)
    &&& s.location.path@ == path
    &&& s.location.identifier_start_line == d.selection_range.start.line
    &&& s.location.identifier_start_character == d.selection_range.start.character
}

/// The symbols of a tree, each before its children, as (symbol, depth-first order) pairs.
pub open spec fn flatten_tree(d: DocumentSymbol) -> Seq<DocumentSymbol>
    decreases d, 1int,
{
    seq![d] + match d.children {
        Some(c) => flatten_forest(c@),
        None => seq![],
    }
}

/// The symbols of several trees, one tree after another.
pub open spec fn flatten_forest(ds: Seq<DocumentSymbol>) -> Seq<DocumentSymbol>
    decreases ds, 0int,
{
    if ds.len() == 0 {
        seq![]
    } else {
        proof {
            assert(decreases_to!(ds => ds[ds.len() - 1]));
        }
        flatten_forest(ds.drop_last()) + flatten_tree(ds[ds.len() - 1])
    }
}

fn nested_entry(d: &DocumentSymbol, file_path: &str) -> (s: SimpleSymbol)
    ensures
        is_nested_entry(*d, file_path@, s),
{
    SimpleSymbol {
        name: d.name.clone(),
        kind: symbol_kind_to_string(d.kind),
        location: SimpleLocation {
            path: file_path.to_owned(),
            identifier_start_line: d.selection_range.start.line,
            identifier_start_character: d.selection_range.start.character,
        },
    }
}

/// Appends the entries of a tree of symbols to `result`, each symbol before its children.
fn flatten_into(d: &DocumentSymbol, file_path: &str, result: &mut Vec<SimpleSymbol>)
    ensures
        final(result)@.len() == old(result)@.len() + flatten_tree(*d).len(),
        forall|i: int| 0 <= i < old(result)@.len() ==> final(result)@[i] == old(result)@[i],
        forall|i: int|
            0 <= i < flatten_tree(*d).len() ==> is_nested_entry(
                flatten_tree(*d)[i],
                file_path@,
                #[trigger] final(result)@[old(result)@.len() + i],
            ),
    decreases d, 1int,
{
    let ghost start = result@;
    result.push(nested_entry(d, file_path));
    let ghost mid = result@;
    match &d.children {
        Some(c) => {
            proof {
                assert(decreases_to!(*d => d.children));
            }
            flatten_forest_into(c, file_path, result);
            proof {
                let t = flatten_tree(*d);
                assert(t =~= seq![*d] + flatten_forest(c@));
                assert forall|i: int| 0 <= i < t.len() implies is_nested_entry(
                    t[i],
                    file_path@,
                    #[trigger] result@[start.len() + i],
                ) by {
                    if i == 0 {
                        assert(result@[start.len() as int] == mid[start.len() as int]);
                    } else {
                        assert(t[i] == flatten_forest(c@)[i - 1]);
                        assert(result@[mid.len() + (i - 1)] == result@[start.len() + i]);
                    }
                }
                assert forall|i: int| 0 <= i < start.len() implies result@[i] == start[i] by {
                    assert(result@[i] == mid[i]);
                }
            }
        },
        None => {
            assert(flatten_tree(*d) =~= seq![*d]);
        },
    }
}

/// Appends the entries of several trees of symbols to `result`, one tree after another.
fn flatten_forest_into(ds: &Vec<DocumentSymbol>, file_path: &str, result: &mut Vec<SimpleSymbol>)
    ensures
        final(result)@.len() == old(result)@.len() + flatten_forest(ds@).len(),
        forall|i: int| 0 <= i < old(result)@.len() ==> final(result)@[i] == old(result)@[i],
        forall|i: int|
            0 <= i < flatten_forest(ds@).len() ==> is_nested_entry(
                flatten_forest(ds@)[i],
                file_path@,
                #[trigger] final(result)@[old(result)@.len() + i],
            ),
    decreases ds, 0int,
{
    let ghost start = result@;
    let mut k: usize = 0;
    while k < ds.len()
        invariant
            k <= ds@.len(),
            result@.len() == start.len() + flatten_forest(ds@.take(k as int)).len(),
            forall|i: int| 0 <= i < start.len() ==> result@[i] == start[i],
            forall|i: int|
                0 <= i < flatten_forest(ds@.take(k as int)).len() ==> is_nested_entry(
                    flatten_forest(ds@.take(k as int))[i],
                    file_path@,
                    #[trigger] result@[start.len() + i],
                ),
        decreases ds@.len() - k,
    {
        let ghost before = result@;
        let ghost prefix = ds@.take(k as int);
        let ghost next = ds@.take(k + 1);
        proof {
            assert(decreases_to!(ds => ds@[k as int]));
        }
        flatten_into(&ds[k], file_path, result);
        proof {
            assert(next.drop_last() =~= prefix);
            assert(next[next.len() - 1] == ds@[k as int]);
            assert(flatten_forest(next) =~= flatten_forest(prefix) + flatten_tree(ds@[k as int]));
            assert forall|i: int|
                0 <= i < flatten_forest(next).len() implies is_nested_entry(
                flatten_forest(next)[i],
                file_path@,
                #[trigger] result@[start.len() + i],
            ) by {
                if i < flatten_forest(prefix).len() {
                    assert(result@[start.len() + i] == before[start.len() + i]);
                } else {
                    let j = i - flatten_forest(prefix).len();
                    assert(flatten_forest(next)[i] == flatten_tree(ds@[k as int])[j]);
                    assert(result@[before.len() + j] == result@[start.len() + i]);
                }
            }
        }
        k = k + 1;
    }
    assert(ds@.take(ds@.len() as int) =~= ds@);
}

/// The symbols of nested trees as a flat list, each symbol before its children.
pub fn flatten_nested_symbols(symbols: &Vec<DocumentSymbol>, file_path: &str) -> (r: Vec<SimpleSymbol>)
    ensures
        r@.len() == flatten_forest(symbols@).len(),
        forall|i: int|
            0 <= i < r@.len() ==> is_nested_entry(flatten_forest(symbols@)[i], file_path@, #[trigger] r@[i]),
{
    let mut r: Vec<SimpleSymbol> = Vec::new();
    flatten_forest_into(symbols, file_path, &mut r);
    proof {
        assert forall|i: int| 0 <= i < r@.len() implies is_nested_entry(
            flatten_forest(symbols@)[i],
            file_path@,
            #[trigger] r@[i],
        ) by {
            assert(r@[0 + i] == r@[i]);
        }
    }
    r
}

/// The entries for flat symbol information, in order.
pub fn simple_symbols_from_information(infos: &Vec<SymbolInformation>, current_dir: &str) -> (r: Vec<SimpleSymbol>)
    ensures
        r@.len() == infos@.len(),
        forall|i: int| 0 <= i < infos@.len() ==> is_simple_info(infos@[i], current_dir@, #[trigger] r@[i]),
{
    let mut r: Vec<SimpleSymbol> = Vec::new();
    let mut i: usize = 0;
    while i < infos.len()
        invariant
            i <= infos@.len(),
            r@.len() == i,
            forall|k: int| 0 <= k < i ==> is_simple_info(infos@[k], current_dir@, #[trigger] r@[k]),
        decreases infos@.len() - i,
    {
        r.push(SimpleSymbol::from_information(&infos[i], current_dir));
        i = i + 1;
    }
    r
}

/// `s` is the entry for flat symbol information reported in a given file: the symbol's own
/// location is replaced by the file.
pub open spec fn is_flat_file_entry(info: SymbolInformation, path: Seq<char>, s: SimpleSymbol) -> bool {
    &&& s.name@ == info.name@
    &&& s.kind@ == symbol_kind_name(info.kind)
    &&& s.location.path@ == path
    &&& s.location.identifier_start_line == info.location.range.start.line
    &&& s.location.identifier_start_character == info.location.range.start.character
}

impl SimpleSymbolResponse {
    /// The symbols of a document in simple form: flat information as given, placed in the
    /// file; nested symbols flattened, each before its children.
    pub fn new(response: &DocumentSymbolResponse, file_path: &str, raw_response: String) -> (r: SimpleSymbolResponse)
        ensures
            r.raw_response == raw_response,
            match *response {
                DocumentSymbolResponse::Flat(infos) => r.symbols@.len() == infos@.len() && forall|i: int|
                    0 <= i < infos@.len() ==> is_flat_file_entry(infos@[i], file_path@, #[trigger] r.symbols@[i]),
                DocumentSymbolResponse::Nested(ds) => r.symbols@.len() == flatten_forest(ds@).len() && forall|i: int|
                    0 <= i < r.symbols@.len() ==> is_nested_entry(flatten_forest(ds@)[i], file_path@, #[trigger] r.symbols@[i]),
            },
    {
        let symbols = match response {
            DocumentSymbolResponse::Flat(infos) => {
                let mut v: Vec<SimpleSymbol> = Vec::new();
                let mut i: usize = 0;
                while i < infos.len()
                    invariant
                        i <= infos@.len(),
                        v@.len() == i,
                        forall|k: int| 0 <= k < i ==> is_flat_file_entry(infos@[k], file_path@, #[trigger] v@[k]),
                    decreases infos@.len() - i,
                {
                    let info = &infos[i];
                    v.push(
                        SimpleSymbol {
                            name: info.name.clone(),
                            kind: symbol_kind_to_string(info.kind),
                            location: SimpleLocation {
                                path: file_path.to_owned(),
                                identifier_start_line: info.location.range.start.line,
                                identifier_start_character: info.location.range.start.character,
                            },
                        },
                    );
                    i = i + 1;
                }
                v
            },
            DocumentSymbolResponse::Nested(ds) => flatten_nested_symbols(ds, file_path),
        };
        SimpleSymbolResponse { raw_response, symbols }
    }
}

/// The number of symbols a workspace answer lists.
pub open spec fn workspace_response_len(r: WorkspaceSymbolResponse) -> nat {
    match r {
        WorkspaceSymbolResponse::Flat(v) => v@.len(),
        WorkspaceSymbolResponse::Nested(v) => v@.len(),
    }
}

/// `s` is the simple form of the `i`-th symbol of a workspace answer.
pub open spec fn is_workspace_entry(r: WorkspaceSymbolResponse, i: int, current_dir: Seq<char>, s: SimpleSymbol) -> bool {
    match r {
        WorkspaceSymbolResponse::Flat(v) => is_simple_info(v@[i], current_dir, s),
        WorkspaceSymbolResponse::Nested(v) => is_simple_workspace_symbol(v@[i], current_dir, s),
    }
}

/// `out` lists the simple forms of the symbols of the answers, answer after answer.
pub open spec fn workspace_entries(rs: Seq<WorkspaceSymbolResponse>, current_dir: Seq<char>, out: Seq<SimpleSymbol>) -> bool
    decreases rs.len(),
{
    if rs.len() == 0 {
        out.len() == 0
    } else {
        let k = workspace_response_len(rs.last());
        &&& out.len() >= k
        &&& workspace_entries(rs.drop_last(), current_dir, out.take(out.len() - k))
        &&& forall|i: int| 0 <= i < k ==> is_workspace_entry(rs.last(), i, current_dir, #[trigger] out[out.len() - k + i])
    }
}

impl SimpleSymbolResponse {
    /// The symbols of several workspace answers in simple form, answer after answer.
    pub fn from_workspace_responses(responses: &Vec<WorkspaceSymbolResponse>, raw_response: String, current_dir: &str) -> (r: SimpleSymbolResponse)
        ensures
            r.raw_response == raw_response,
            workspace_entries(responses@, current_dir@, r.symbols@),
    {
        let mut symbols: Vec<SimpleSymbol> = Vec::new();
        let mut j: usize = 0;
        while j < responses.len()
            invariant
                j <= responses@.len(),
                workspace_entries(responses@.take(j as int), current_dir@, symbols@),
            decreases responses@.len() - j,
        {
            let ghost before = symbols@;
            let resp = &responses[j];
            let ghost k = workspace_response_len(*resp);
            match resp {
                WorkspaceSymbolResponse::Flat(v) => {
                    let mut i: usize = 0;
                    while i < v.len()
                        invariant
                            i <= v@.len(),
                            symbols@.len() == before.len() + i,
                            symbols@.take(before.len() as int) == before,
                            forall|t: int| 0 <= t < i ==> is_simple_info(v@[t], current_dir@, #[trigger] symbols@[before.len() + t]),
                        decreases v@.len() - i,
                    {
                        let ghost prev = symbols@;
                        symbols.push(SimpleSymbol::from_information(&v[i], current_dir));
                        assert(symbols@.take(before.len() as int) =~= prev.take(before.len() as int));
                        i = i + 1;
                    }
                },
                WorkspaceSymbolResponse::Nested(v) => {
                    let mut i: usize = 0;
                    while i < v.len()
                        invariant
                            i <= v@.len(),
                            symbols@.len() == before.len() + i,
                            symbols@.take(before.len() as int) == before,
                            forall|t: int|
                                0 <= t < i ==> is_simple_workspace_symbol(v@[t], current_dir@, #[trigger] symbols@[before.len() + t]),
                        decreases v@.len() - i,
                    {
                        let ghost prev = symbols@;
                        symbols.push(SimpleSymbol::from_workspace_symbol(&v[i], current_dir));
                        assert(symbols@.take(before.len() as int) =~= prev.take(before.len() as int));
                        i = i + 1;
                    }
                },
            }
            proof {
                let rs = responses@.take(j + 1);
                assert(rs.drop_last() =~= responses@.take(j as int));
                assert(rs.last() == *resp);
                assert(symbols@.len() == before.len() + k);
                assert(symbols@.take(symbols@.len() - k) == before);
                assert forall|i: int| 0 <= i < k implies is_workspace_entry(
                    rs.last(),
                    i,
                    current_dir@,
                    #[trigger] symbols@[symbols@.len() - k + i],
                ) by {
                    assert(symbols@[symbols@.len() - k + i] == symbols@[before.len() + i]);
                }
            }
            j = j + 1;
        }
        assert(responses@.take(responses@.len() as int) =~= responses@);
        SimpleSymbolResponse { raw_response, symbols }
    }
}

/// The simple forms of locations, in order.
pub fn simple_locations(locations: &Vec<Location>, current_dir: &str) -> (r: Vec<SimpleLocation>)
    ensures
        r@.len() == locations@.len(),
        forall|i: int|
            0 <= i < locations@.len() ==> is_simple_location(locations@[i].uri@, locations@[i].range, current_dir@, #[trigger] r@[i]),
{
    let mut r: Vec<SimpleLocation> = Vec::new();
    let mut i: usize = 0;
    while i < locations.len()
        invariant
            i <= locations@.len(),
            r@.len() == i,
            forall|k: int|
                0 <= k < i ==> is_simple_location(locations@[k].uri@, locations@[k].range, current_dir@, #[trigger] r@[k]),
        decreases locations@.len() - i,
    {
        r.push(SimpleLocation::from_location(&locations[i], current_dir));
        i = i + 1;
    }
    r
}

impl SimpleReferenceResponse {
    /// The references in simple form, in order.
    pub fn from_locations(locations: &Vec<Location>, raw_response: String, current_dir: &str) -> (r: SimpleReferenceResponse)
        ensures
            r.raw_response == raw_response,
            r.references@.len() == locations@.len(),
            forall|i: int|
                0 <= i < locations@.len() ==> is_simple_location(
                    locations@[i].uri@,
                    locations@[i].range,
                    current_dir@,
                    #[trigger] r.references@[i],
                ),
    {
        SimpleReferenceResponse { raw_response, references: simple_locations(locations, current_dir) }
    }
}

impl SimpleGotoDefinitionResponse {
    /// The definitions in simple form, in order; links by their targets.
    pub fn from_response(response: &crate::handlers::GotoDefinitionResponse, raw_response: String, current_dir: &str) -> (r: SimpleGotoDefinitionResponse)
        ensures
            r.raw_response == raw_response,
            r.definitions@.len() == crate::handlers::response_locations(*response).len(),
            forall|i: int|
                0 <= i < r.definitions@.len() ==> is_simple_location(
                    crate::handlers::response_locations(*response)[i].uri@,
                    crate::handlers::response_locations(*response)[i].range,
                    current_dir@,
                    #[trigger] r.definitions@[i],
                ),
    {
        let locs = crate::handlers::definition_locations(response);
        SimpleGotoDefinitionResponse { raw_response, definitions: simple_locations(&locs, current_dir) }
    }
}

} // verus!
