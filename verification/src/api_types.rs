//! The request and response types of the HTTP API, and the workspace mount directory.
use vstd::prelude::*;

verus! {

/// The mount directory used when nothing else has been configured.
pub open spec fn default_mount_dir() -> Seq<char> {
    seq!['/', 'm', 'n', 't', '/', 'w', 'o', 'r', 'k', 's', 'p', 'a', 'c', 'e']
}

/// The mount directory configuration: a process-wide directory and an optional
/// per-thread override that takes precedence over it.
pub struct MountDirs {
    pub global: String,
    pub thread_local: Option<String>,
}

impl MountDirs {
    /// The mount directory that is in effect: the per-thread override when one is set,
    /// otherwise the process-wide directory.
    pub open spec fn effective(&self) -> Seq<char> {
        match self.thread_local {
            Some(local) => local@,
            None => self.global@,
        }
    }

    /// A configuration with the default process-wide directory and no override.
    pub fn new() -> (r: MountDirs)
        ensures
            r.global@ == default_mount_dir(),
            r.thread_local is None,
    {
        let mut global = String::new();
        global.append("/mnt/workspace");
        proof {
            reveal_strlit("/mnt/workspace");
        }
        assert(global@ =~= default_mount_dir());
        MountDirs { global, thread_local: None }
    }
}

/// Returns the mount directory that is in effect.
pub fn get_mount_dir(dirs: &MountDirs) -> (r: String)
    ensures
        r@ == dirs.effective(),
{
    match &dirs.thread_local {
        Some(local) => local.clone(),
        None => dirs.global.clone(),
    }
}

/// Sets the per-thread override.
pub fn set_thread_local_mount_dir(dirs: &mut MountDirs, path: &str)
    ensures
        final(dirs).global@ == old(dirs).global@,
        final(dirs).thread_local matches Some(l) && l@ == path@,
{
    dirs.thread_local = Some(path.to_owned());
}

/// Removes the per-thread override.
pub fn unset_thread_local_mount_dir(dirs: &mut MountDirs)
    ensures
        final(dirs).global@ == old(dirs).global@,
        final(dirs).thread_local is None,
{
    dirs.thread_local = None;
}

/// Replaces the process-wide directory; a per-thread override stays as it was.
pub fn set_global_mount_dir(dirs: &mut MountDirs, path: &str)
    ensures
        final(dirs).global@ == path@,
        final(dirs).thread_local == old(dirs).thread_local,
{
    dirs.global = path.to_owned();
}

/// Setting a per-thread directory makes it the one in effect, whatever the process-wide
/// directory is; removing it again brings back the process-wide directory unchanged.
pub proof fn law_thread_local_overrides_global(before: MountDirs, set: MountDirs, unset: MountDirs, path: Seq<char>)
    requires
        set.global@ == before.global@,
        set.thread_local matches Some(l) && l@ == path,
        unset.global@ == set.global@,
        unset.thread_local is None,
    ensures
        set.effective() == path,
        unset.effective() == before.global@,
{
}

/// Changing the process-wide directory does not change the directory in effect while a
/// per-thread override is set, and is the directory in effect when none is.
pub proof fn law_global_is_fallback(before: MountDirs, after: MountDirs, path: Seq<char>)
    requires
        after.global@ == path,
        after.thread_local == before.thread_local,
    ensures
        before.thread_local is Some ==> after.effective() == before.effective(),
        before.thread_local is None ==> after.effective() == path,
{
}

/// The body of an error reply.
#[derive(Debug, PartialEq, Eq)]
pub struct ErrorResponse {
    pub error: String,
}

/// The languages whose servers the proxy can run.
#[derive(Debug, Clone, Copy, PartialEq, Eq, Structural, Hash)]
pub enum SupportedLanguages {
    Python,
    /// TypeScript and JavaScript are handled by the same langserver
    TypeScriptJavaScript,
    Rust,
    CPP,
    Java,
    Golang,
    PHP,
}

/// The name of a language as requests and responses write it (the health report's keys).
pub open spec fn language_name_spec(lang: SupportedLanguages) -> Seq<char> {
    match lang {
        SupportedLanguages::Python => seq!['p', 'y', 't', 'h', 'o', 'n'],
        SupportedLanguages::TypeScriptJavaScript => seq![
            't', 'y', 'p', 'e', 's', 'c', 'r', 'i', 'p', 't', '_', 'j', 'a', 'v', 'a', 's', 'c', 'r', 'i', 'p', 't'
        ],
        SupportedLanguages::Rust => seq!['r', 'u', 's', 't'],
        SupportedLanguages::CPP => seq!['c', 'p', 'p'],
        SupportedLanguages::Java => seq!['j', 'a', 'v', 'a'],
        SupportedLanguages::Golang => seq!['g', 'o', 'l', 'a', 'n', 'g'],
        SupportedLanguages::PHP => seq!['p', 'h', 'p'],
    }
}

impl SupportedLanguages {
    /// The name of the language as requests and responses write it.
    pub fn name(&self) -> (r: String)
        ensures
            r@ == language_name_spec(*self),
    {
        let mut s = String::new();
        match self {
            SupportedLanguages::Python => {
                s.append("python");
                proof { reveal_strlit("python"); }
            },
            SupportedLanguages::TypeScriptJavaScript => {
                s.append("typescript_javascript");
                proof { reveal_strlit("typescript_javascript"); }
            },
            SupportedLanguages::Rust => {
                s.append("rust");
                proof { reveal_strlit("rust"); }
            },
            SupportedLanguages::CPP => {
                s.append("cpp");
                proof { reveal_strlit("cpp"); }
            },
            SupportedLanguages::Java => {
                s.append("java");
                proof { reveal_strlit("java"); }
            },
            SupportedLanguages::Golang => {
                s.append("golang");
                proof { reveal_strlit("golang"); }
            },
            SupportedLanguages::PHP => {
                s.append("php");
                proof { reveal_strlit("php"); }
            },
        }
        assert(s@ =~= language_name_spec(*self));
        s
    }
}

/// The service status, version and the availability of each language server.
#[derive(Debug, PartialEq, Eq)]
pub struct HealthResponse {
    pub status: String,
    pub version: String,
    pub languages: Vec<(SupportedLanguages, bool)>,
}

/// A zero-based position in a file.
#[derive(Debug, PartialEq, Eq, Structural)]
pub struct Position {
    /// 0-indexed line number.
    pub line: u32,
    /// 0-indexed character index.
    pub character: u32,
}

impl Clone for Position {
    fn clone(&self) -> (r: Self)
        ensures
            r == *self,
    {
        Position { line: self.line, character: self.character }
    }
}

/// A start and an end position.
#[derive(Debug, PartialEq, Eq, Structural)]
pub struct Range {
    pub start: Position,
    pub end: Position,
}

impl Clone for Range {
    fn clone(&self) -> (r: Self)
        ensures
            r == *self,
    {
        Range { start: self.start.clone(), end: self.end.clone() }
    }
}

/// Specific position within a file.
#[derive(Debug, PartialEq, Eq)]
pub struct FilePosition {
    pub path: String,
    pub position: Position,
}

impl Clone for FilePosition {
    fn clone(&self) -> (r: Self)
        ensures
            r == *self,
    {
        FilePosition { path: self.path.clone(), position: self.position.clone() }
    }
}

/// A range of positions within a file.
#[derive(Debug, PartialEq, Eq)]
pub struct FileRange {
    /// The path to the file.
    pub path: String,
    /// The start position of the range.
    pub start: Position,
    /// The end position of the range.
    pub end: Position,
}

impl Clone for FileRange {
    fn clone(&self) -> (r: Self)
        ensures
            r == *self,
    {
        FileRange { path: self.path.clone(), start: self.start.clone(), end: self.end.clone() }
    }
}

/// `a` comes no later than `b` in document order.
pub open spec fn pos_le(a: Position, b: Position) -> bool {
    a.line < b.line || (a.line == b.line && a.character <= b.character)
}

/// The position lies between the two ends of the range, both ends included.
pub open spec fn range_contains(start: Position, end: Position, p: Position) -> bool {
    pos_le(start, p) && pos_le(p, end)
}

impl FileRange {
    /// Whether the position lies within the range, both ends included.
    pub fn contains(&self, position: &Position) -> (r: bool)
        ensures
            r == range_contains(self.start, self.end, *position),
    {
        let pos = position;
        self.start.line <= pos.line && self.end.line >= pos.line && (self.start.line != pos.line
            || self.start.character <= pos.character) && (self.end.line != pos.line
            || self.end.character >= pos.character)
    }
}

/// A range together with the source code it covers.
#[derive(Debug, PartialEq, Eq)]
pub struct CodeContext {
    pub range: FileRange,
    pub source_code: String,
}

/// A definition found in a file.
#[derive(Debug, PartialEq, Eq)]
pub struct Symbol {
    /// The name of the symbol.
    pub name: String,
    /// The kind of the symbol (e.g., function, class).
    pub kind: String,
    /// The start position of the symbol's identifier.
    pub identifier_position: FilePosition,
    /// The full range of the symbol.
    pub range: FileRange,
}

impl Clone for Symbol {
    fn clone(&self) -> (r: Self)
        ensures
            r == *self,
    {
        Symbol {
            name: self.name.clone(),
            kind: self.kind.clone(),
            identifier_position: self.identifier_position.clone(),
            range: self.range.clone(),
        }
    }
}

/// An occurrence of a name in a file.
#[derive(Debug, PartialEq, Eq)]
pub struct Identifier {
    pub name: String,
    pub range: FileRange,
    /// The kind of definition the name introduces, when it introduces one.
    pub kind: Option<String>,
}

impl Clone for Identifier {
    fn clone(&self) -> (r: Self)
        ensures
            r == *self,
    {
        let kind = match &self.kind {
            Some(k) => Some(k.clone()),
            None => None,
        };
        Identifier { name: self.name.clone(), range: self.range.clone(), kind }
    }
}

/// Request for the definition of the symbol at a position.
#[derive(Debug)]
pub struct GetDefinitionRequest {
    pub position: FilePosition,
    /// Whether to include the source code around the symbol's identifier in the response.
    pub include_source_code: bool,
    /// Whether to include the raw response from the langserver in the response.
    pub include_raw_response: bool,
}

/// Request for the references to the symbol at a position.
#[derive(Debug)]
pub struct GetReferencesRequest {
    pub identifier_position: FilePosition,
    /// How many lines of source code around each reference to include, if any.
    pub include_code_context_lines: Option<u32>,
    /// Whether to include the raw response from the langserver in the response.
    pub include_raw_response: bool,
}

/// Request to get the symbols that are referenced from the symbol at the given position
#[derive(Debug)]
pub struct GetReferencedSymbolsRequest {
    pub identifier_position: FilePosition,
}

/// Request to get the symbols in a file.
#[derive(Debug)]
pub struct FileSymbolsRequest {
    /// The path to the file to get the symbols for, relative to the root of the workspace.
    pub file_path: String,
}

/// Request to get the symbols in the workspace.
#[derive(Debug)]
pub struct WorkspaceSymbolsRequest {
    /// The query to search for.
    pub query: String,
    /// Whether to include the raw response from the langserver in the response.
    pub include_raw_response: bool,
}

/// Response to a definition request.
#[derive(Debug, PartialEq, Eq)]
pub struct DefinitionResponse {
    /// The raw response from the langserver, as JSON text.
    pub raw_response: Option<String>,
    pub definitions: Vec<FilePosition>,
    /// The source code of symbol definitions.
    pub source_code_context: Option<Vec<CodeContext>>,
    /// The identifier that was "clicked-on" to get the definition.
    pub selected_identifier: Identifier,
}

/// Response to a references request.
#[derive(Debug, PartialEq, Eq)]
pub struct ReferencesResponse {
    /// The raw response from the langserver, as JSON text.
    pub raw_response: Option<String>,
    pub references: Vec<FilePosition>,
    /// The source code around the references.
    pub context: Option<Vec<CodeContext>>,
    /// The identifier that was "clicked-on" to get the references.
    pub selected_identifier: Identifier,
}

/// A reference together with the workspace symbols that define it.
#[derive(Debug, PartialEq, Eq)]
pub struct ReferenceWithSymbolDefinitions {
    pub reference: Identifier,
    pub definitions: Vec<Symbol>,
}

/// The symbols referenced from within a symbol, split by where they are defined.
#[derive(Debug, PartialEq, Eq)]
pub struct ReferencedSymbolsResponse {
    pub workspace_symbols: Vec<ReferenceWithSymbolDefinitions>,
    pub external_symbols: Vec<Identifier>,
    pub not_found: Vec<Identifier>,
}

/// Request to find occurrences of a name in a file.
#[derive(Debug)]
pub struct FindIdentifierRequest {
    /// The name of the identifier to search for.
    pub name: String,
    /// The path to the file to search for identifiers.
    pub path: String,
    /// The position hint to search for identifiers.
    pub position: Option<Position>,
}

/// The identifiers found.
#[derive(Debug, PartialEq, Eq)]
pub struct IdentifierResponse {
    pub identifiers: Vec<Identifier>,
}

/// The source code read from a file.
#[derive(Debug, PartialEq, Eq)]
pub struct ReadSourceCodeResponse {
    pub source_code: String,
}

/// The description of the service's interface.
#[derive(Debug)]
pub struct ApiDoc;

} // verus!
