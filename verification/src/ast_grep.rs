//! The matches that ast-grep reports, and what is derived from them: symbols, identifiers,
//! containment, and the selections the client makes among them.
use vstd::prelude::*;
use crate::api_types::{FilePosition, FileRange, Identifier, Position, Symbol};
use crate::paths::{absolute_path_to_relative_path_string, opt_view, relative_path_spec, spec_uri_path, uri_path};
use crate::sorting::{is_stable_sort, key_le, key_view, reversed, stable_sort_by_key, SortKey};
use crate::text::{lex_lt, str_eq};

verus! {

/// A line and column in a file, zero-based.
#[derive(Debug)]
pub struct AstGrepPosition {
    pub line: u32,
    pub column: u32,
}

/// A byte range.
#[derive(Debug)]
pub struct ByteOffset {
    pub start: usize,
    pub end: usize,
}

/// The range a match covers.
#[derive(Debug)]
pub struct AstGrepRange {
    pub byte_offset: ByteOffset,
    pub start: AstGrepPosition,
    pub end: AstGrepPosition,
}

impl Clone for AstGrepRange {
    fn clone(&self) -> (r: Self)
        ensures
            r == *self,
    {
        AstGrepRange {
            byte_offset: ByteOffset { start: self.byte_offset.start, end: self.byte_offset.end },
            start: AstGrepPosition { line: self.start.line, column: self.start.column },
            end: AstGrepPosition { line: self.end.line, column: self.end.column },
        }
    }
}

/// Leading and trailing character counts.
#[derive(Debug, Clone)]
pub struct CharCount {
    pub leading: usize,
    pub trailing: usize,
}

/// A captured meta-variable.
#[derive(Debug, Clone)]
pub struct MetaVariable {
    pub text: String,
    pub range: AstGrepRange,
}

/// The single meta-variables of a match: the name, and the surrounding context if captured.
#[derive(Debug, Clone)]
pub struct SingleVariable {
    pub name: MetaVariable,
    pub context: Option<MetaVariable>,
}

/// The multi meta-variables of a match.
#[derive(Debug, Clone)]
pub struct MultiVariables {
    pub secondary: Option<Vec<MetaVariable>>,
}

/// The meta-variables of a match.
#[derive(Debug, Clone)]
pub struct MetaVariables {
    pub single: SingleVariable,
    pub multi: MultiVariables,
}

/// A label of a match.
#[derive(Debug, Clone)]
pub struct Label {
    pub text: String,
    pub range: AstGrepRange,
}

/// One match of an ast-grep rule.
#[derive(Debug, Clone)]
pub struct AstGrepMatch {
    pub text: String,
    pub range: AstGrepRange,
    pub file: String,
    pub lines: String,
    pub char_count: CharCount,
    pub language: String,
    pub meta_variables: MetaVariables,
    pub rule_id: String,
    pub labels: Option<Vec<Label>>,
}

/// The range of the match's surrounding context when one was captured, of the match otherwise.
pub open spec fn context_range(m: AstGrepMatch) -> AstGrepRange {
    match m.meta_variables.single.context {
        Some(c) => c.range,
        None => m.range,
    }
}

/// Range `a` contains range `b`: `b` starts no earlier and ends no later.
pub open spec fn ast_range_contains(a: AstGrepRange, b_start_line: u32, b_start_col: u32, b_end_line: u32, b_end_col: u32) -> bool {
    &&& a.start.line <= b_start_line
    &&& a.end.line >= b_end_line
    &&& (a.start.line != b_start_line || a.start.column <= b_start_col)
    &&& (a.end.line != b_end_line || a.end.column >= b_end_col)
}

/// The rule kinds that name something callable, by language.
pub open spec fn callable_rule(language: Seq<char>, rule: Seq<char>) -> bool {
    if language == "Cpp"@ {
        rule == "function-declaration"@ || rule == "function-definition"@ || rule == "class"@
    } else if language == "Go"@ {
        rule == "function"@ || rule == "method"@
    } else if language == "Java"@ {
        rule == "method"@ || rule == "class"@
    } else if language == "JavaScript"@ || language == "Php"@ || language == "TypeScript"@ || language
        == "Tsx"@ {
        rule == "function"@ || rule == "method"@ || rule == "class"@
    } else if language == "Python"@ {
        rule == "function"@ || rule == "class"@
    } else if language == "Rust"@ {
        rule == "function"@
    } else {
        false
    }
}

/// The path component of a URI, or the text itself when it does not parse.
pub open spec fn uri_path_component(uri: Seq<char>) -> Seq<char> {
    match spec_uri_path(uri) {
        Some(p) => p,
        None => uri,
    }
}

impl AstGrepMatch {
    /// The source code of the match: the captured context's text, or the match's own.
    pub fn get_source_code(&self) -> (r: String)
        ensures
            r@ == match self.meta_variables.single.context {
                Some(c) => c.text@,
                None => self.text@,
            },
    {
        if let Some(context) = &self.meta_variables.single.context {
            context.text.clone()
        } else {
            self.text.clone()
        }
    }

    /// The range of the captured context, or the match's own range.
    pub fn get_context_range(&self) -> (r: AstGrepRange)
        ensures
            r == context_range(*self),
    {
        if let Some(context) = &self.meta_variables.single.context {
            context.range.clone()
        } else {
            self.range.clone()
        }
    }

    /// The range of the matched name.
    pub fn get_identifier_range(&self) -> (r: AstGrepRange)
        ensures
            r == self.meta_variables.single.name.range,
    {
        self.meta_variables.single.name.range.clone()
    }

    /// Whether `other` lies in the same file within this match's context range.
    pub fn contains(&self, other: &AstGrepMatch) -> (r: bool)
        ensures
            r == (self.file@ == other.file@ && ast_range_contains(
                context_range(*self),
                context_range(*other).start.line,
                context_range(*other).start.column,
                context_range(*other).end.line,
                context_range(*other).end.column,
            )),
    {
        let a = self.get_context_range();
        let b = other.get_context_range();
        str_eq(self.file.as_str(), other.file.as_str()) && a.start.line <= b.start.line && a.end.line
            >= b.end.line && (a.start.line != b.start.line || a.start.column <= b.start.column) && (
        a.end.line != b.end.line || a.end.column >= b.end.column)
    }

    /// Whether a location (a URI and a range) lies in this match's file and context range.
    pub fn contains_location(&self, loc: &Location) -> (r: bool)
        ensures
            r == (self.file@ == uri_path_component(loc.uri@) && ast_range_contains(
                context_range(*self),
                loc.range.start.line,
                loc.range.start.character,
                loc.range.end.line,
                loc.range.end.character,
            )),
    {
        let path = match uri_path(loc.uri.as_str()) {
            Some(p) => p,
            None => loc.uri.clone(),
        };
        let a = self.get_context_range();
        str_eq(self.file.as_str(), path.as_str()) && a.start.line <= loc.range.start.line && a.end.line
            >= loc.range.end.line && (a.start.line != loc.range.start.line || a.start.column
            <= loc.range.start.character) && (a.end.line != loc.range.end.line || a.end.column
            >= loc.range.end.character)
    }

    /// Whether a location link's target lies in this match's file and context range.
    pub fn contains_locationlink(&self, link: &LocationLink) -> (r: bool)
        ensures
            r == (self.file@ == uri_path_component(link.target_uri@) && ast_range_contains(
                context_range(*self),
                link.target_range.start.line,
                link.target_range.start.character,
                link.target_range.end.line,
                link.target_range.end.character,
            )),
    {
        let loc = Location { uri: link.target_uri.clone(), range: link.target_range.clone() };
        self.contains_location(&loc)
    }

    /// Whether the match names something callable in its language.
    pub fn is_callable(&self) -> (r: bool)
        ensures
            r == callable_rule(self.language@, self.rule_id@),
    {
        let l = self.language.as_str();
        let k = self.rule_id.as_str();
        if str_eq(l, "Cpp") {
            str_eq(k, "function-declaration") || str_eq(k, "function-definition") || str_eq(k, "class")
        } else if str_eq(l, "Go") {
            str_eq(k, "function") || str_eq(k, "method")
        } else if str_eq(l, "Java") {
            str_eq(k, "method") || str_eq(k, "class")
        } else if str_eq(l, "JavaScript") || str_eq(l, "Php") || str_eq(l, "TypeScript") || str_eq(
            l,
            "Tsx",
        ) {
            str_eq(k, "function") || str_eq(k, "method") || str_eq(k, "class")
        } else if str_eq(l, "Python") {
            str_eq(k, "function") || str_eq(k, "class")
        } else if str_eq(l, "Rust") {
            str_eq(k, "function")
        } else {
            false
        }
    }

    /// The position where the match starts, as a language-server position.
    pub fn lsp_position(&self) -> (r: Position)
        ensures
            r.line == self.range.start.line,
            r.character == self.range.start.column,
    {
        Position { line: self.range.start.line, character: self.range.start.column }
    }
}

/// A location in a file, as language servers report it.
#[derive(Debug, PartialEq, Eq)]
pub struct Location {
    pub uri: String,
    pub range: crate::api_types::Range,
}

impl Clone for Location {
    fn clone(&self) -> (r: Self)
        ensures
            r == *self,
    {
        Location { uri: self.uri.clone(), range: self.range.clone() }
    }
}

/// A link to a location, as language servers report it.
#[derive(Debug, PartialEq, Eq)]
pub struct LocationLink {
    pub target_uri: String,
    pub target_range: crate::api_types::Range,
}

/// The symbol that a match defines: its name, its rule as kind, the start of the match as
/// the identifier's position, and the context's lines as range (from the start of its first
/// line).
pub open spec fn symbol_from_match_spec(m: AstGrepMatch, mount_dir: Seq<char>, s: Symbol) -> bool {
    let path = relative_path_spec(m.file@, mount_dir);
    let cr = context_range(m);
    &&& s.name@ == m.meta_variables.single.name.text@
    &&& s.kind@ == m.rule_id@
    &&& s.identifier_position.path@ == path
    &&& s.identifier_position.position == Position { line: m.range.start.line, character: m.range.start.column }
    &&& s.range.path@ == path
    &&& s.range.start == Position { line: cr.start.line, character: 0 }
    &&& s.range.end == Position { line: cr.end.line, character: cr.end.column }
}

/// The symbol that a match of a definition rule defines.
pub fn symbol_from_match(m: &AstGrepMatch, mount_dir: &str) -> (s: Symbol)
    requires
        m.rule_id@ != "all-identifiers"@,
    ensures
        symbol_from_match_spec(*m, mount_dir@, s),
{
    let path = absolute_path_to_relative_path_string(m.file.as_str(), mount_dir);
    let cr = m.get_context_range();
    Symbol {
        name: m.meta_variables.single.name.text.clone(),
        kind: m.rule_id.clone(),
        identifier_position: FilePosition {
            path: path.clone(),
            position: Position { line: m.range.start.line, character: m.range.start.column },
        },
        range: FileRange {
            path,
            start: Position { line: cr.start.line, character: 0 },
            end: Position { line: cr.end.line, character: cr.end.column },
        },
    }
}

/// The identifier that a match names: the name, the context range, and the rule as kind
/// unless the rule is the one that matches every identifier.
pub open spec fn identifier_from_match_spec(m: AstGrepMatch, mount_dir: Seq<char>, id: Identifier) -> bool {
    let path = relative_path_spec(m.file@, mount_dir);
    let cr = context_range(m);
    &&& id.name@ == m.meta_variables.single.name.text@
    &&& id.range.path@ == path
    &&& id.range.start == Position { line: cr.start.line, character: cr.start.column }
    &&& id.range.end == Position { line: cr.end.line, character: cr.end.column }
    &&& (if m.rule_id@ == "all-identifiers"@ {
        id.kind is None
    } else {
        id.kind matches Some(k) && k@ == m.rule_id@
    })
}

/// The identifier that a match names.
pub fn identifier_from_match(m: &AstGrepMatch, mount_dir: &str) -> (id: Identifier)
    ensures
        identifier_from_match_spec(*m, mount_dir@, id),
{
    let path = absolute_path_to_relative_path_string(m.file.as_str(), mount_dir);
    let cr = m.get_context_range();
    let kind = if str_eq(m.rule_id.as_str(), "all-identifiers") {
        None
    } else {
        Some(m.rule_id.clone())
    };
    Identifier {
        name: m.meta_variables.single.name.text.clone(),
        range: FileRange {
            path,
            start: Position { line: cr.start.line, character: cr.start.column },
            end: Position { line: cr.end.line, character: cr.end.column },
        },
        kind,
    }
}

/// The identifiers that the matches name, in order.
pub fn identifiers_from_matches(ms: &Vec<AstGrepMatch>, mount_dir: &str) -> (r: Vec<Identifier>)
    ensures
        r@.len() == ms@.len(),
        forall|i: int| 0 <= i < ms@.len() ==> identifier_from_match_spec(#[trigger] ms@[i], mount_dir@, r@[i]),
{
    let mut r: Vec<Identifier> = Vec::new();
    let mut i: usize = 0;
    while i < ms.len()
        invariant
            i <= ms@.len(),
            r@.len() == i,
            forall|k: int| 0 <= k < i ==> identifier_from_match_spec(#[trigger] ms@[k], mount_dir@, r@[k]),
        decreases ms@.len() - i,
    {
        r.push(identifier_from_match(&ms[i], mount_dir));
        i = i + 1;
    }
    r
}

/// The symbols defined in a file: every match except those of local variables, in order.
pub open spec fn kept_definitions(ms: Seq<AstGrepMatch>) -> Seq<AstGrepMatch>
    decreases ms.len(),
{
    if ms.len() == 0 {
        seq![]
    } else if ms.last().rule_id@ == "local-variable"@ {
        kept_definitions(ms.drop_last())
    } else {
        kept_definitions(ms.drop_last()).push(ms.last())
    }
}

/// The symbols a file defines, from its definition matches, leaving out local variables.
pub fn definitions_in_file(ms: &Vec<AstGrepMatch>, mount_dir: &str) -> (r: Vec<Symbol>)
    requires
        forall|i: int| 0 <= i < ms@.len() ==> (#[trigger] ms@[i]).rule_id@ != "all-identifiers"@,
    ensures
        r@.len() == kept_definitions(ms@).len(),
        forall|i: int|
            0 <= i < r@.len() ==> symbol_from_match_spec(kept_definitions(ms@)[i], mount_dir@, #[trigger] r@[i]),
        forall|i: int|
            0 <= i < ms@.len() && (#[trigger] ms@[i]).rule_id@ != "local-variable"@ ==> exists|j: int|
                0 <= j < r@.len() && symbol_from_match_spec(ms@[i], mount_dir@, #[trigger] r@[j]),
{
    let mut r: Vec<Symbol> = Vec::new();
    let mut i: usize = 0;
    while i < ms.len()
        invariant
            i <= ms@.len(),
            forall|k: int| 0 <= k < ms@.len() ==> (#[trigger] ms@[k]).rule_id@ != "all-identifiers"@,
            r@.len() == kept_definitions(ms@.take(i as int)).len(),
            forall|k: int|
                0 <= k < r@.len() ==> symbol_from_match_spec(kept_definitions(ms@.take(i as int))[k], mount_dir@, #[trigger] r@[k]),
        decreases ms@.len() - i,
    {
        assert(ms@.take(i + 1).drop_last() =~= ms@.take(i as int));
        assert(ms@.take(i + 1).last() == ms@[i as int]);
        if !str_eq(ms[i].rule_id.as_str(), "local-variable") {
            r.push(symbol_from_match(&ms[i], mount_dir));
        }
        i = i + 1;
    }
    assert(ms@.take(ms@.len() as int) =~= ms@);
    proof {
        law_definitions_drop_only_local_variables(ms@);
        assert forall|i: int| 0 <= i < ms@.len() && (#[trigger] ms@[i]).rule_id@ != "local-variable"@ implies exists|j: int|
            0 <= j < r@.len() && symbol_from_match_spec(ms@[i], mount_dir@, #[trigger] r@[j]) by {
            let kd = kept_definitions(ms@);
            assert(kd.contains(ms@[i]));
            let j = choose|j: int| 0 <= j < kd.len() && kd[j] == ms@[i];
            assert(symbol_from_match_spec(kd[j], mount_dir@, r@[j]));
        }
    }
    r
}

/// The ast-grep client: the choices it makes among the matches a scan reports.
pub struct AstGrepClient;

/// A match's name starts at the position.
pub open spec fn name_starts_at(m: AstGrepMatch, p: Position) -> bool {
    m.meta_variables.single.name.range.start.line == p.line
        && m.meta_variables.single.name.range.start.column == p.character
}

/// The match keeps its place among the references found inside a symbol.
pub open spec fn kept_reference(symbol: AstGrepMatch, m: AstGrepMatch, full_scan: bool) -> bool {
    let contained = symbol.file@ == m.file@ && ast_range_contains(
        context_range(symbol),
        context_range(m).start.line,
        context_range(m).start.column,
        context_range(m).end.line,
        context_range(m).end.column,
    );
    let all_ref = m.rule_id@ == "all-references"@;
    contained && ((full_scan && all_ref) || (!full_scan && !all_ref))
}

/// The references kept among `ms`, in order.
pub open spec fn kept_references(symbol: AstGrepMatch, ms: Seq<AstGrepMatch>, full_scan: bool) -> Seq<AstGrepMatch>
    decreases ms.len(),
{
    if ms.len() == 0 {
        seq![]
    } else if kept_reference(symbol, ms.last(), full_scan) {
        kept_references(symbol, ms.drop_last(), full_scan).push(ms.last())
    } else {
        kept_references(symbol, ms.drop_last(), full_scan)
    }
}

/// The key by which scan results are ordered: the line where the name starts.
pub open spec fn scan_key(m: AstGrepMatch) -> (Seq<char>, u32, u32) {
    (Seq::empty(), m.meta_variables.single.name.range.start.line, 0)
}

impl AstGrepClient {
    /// Among the symbols of a file, the first whose name starts at the position; an error
    /// when none does.
    pub fn get_symbol_match_from_position(&self, file_symbols: Vec<AstGrepMatch>, identifier_position: &Position) -> (r: Result<AstGrepMatch, String>)
        ensures
            r matches Ok(m) ==> exists|i: int|
                0 <= i < file_symbols@.len() && m == file_symbols@[i] && name_starts_at(m, *identifier_position)
                    && forall|k: int| 0 <= k < i ==> !name_starts_at(#[trigger] file_symbols@[k], *identifier_position),
            r is Err <==> forall|k: int|
                0 <= k < file_symbols@.len() ==> !name_starts_at(#[trigger] file_symbols@[k], *identifier_position),
            r matches Err(msg) ==> msg@ == "No symbol found for position"@,
    {
        let mut i: usize = 0;
        while i < file_symbols.len()
            invariant
                i <= file_symbols@.len(),
                forall|k: int| 0 <= k < i ==> !name_starts_at(#[trigger] file_symbols@[k], *identifier_position),
            decreases file_symbols@.len() - i,
        {
            let r = &file_symbols[i].meta_variables.single.name.range;
            if r.start.line == identifier_position.line && r.start.column == identifier_position.character {
                let mut file_symbols = file_symbols;
                return Ok(file_symbols.swap_remove(i));
            }
            i = i + 1;
        }
        let mut msg = String::new();
        msg.append("No symbol found for position");
        Err(msg)
    }

    /// The references inside a symbol: the matches contained in its context range; with a
    /// full scan those of the catch-all reference rule, otherwise those of the other rules.
    pub fn get_references_contained_in_symbol_match(&self, matches: Vec<AstGrepMatch>, symbol_match: &AstGrepMatch, full_scan: bool) -> (r: Vec<AstGrepMatch>)
        ensures
            r@ == kept_references(*symbol_match, matches@, full_scan),
    {
        let ghost s = matches@;
        let n = matches.len();
        let mut rest = reversed(matches);
        let mut r: Vec<AstGrepMatch> = Vec::new();
        let mut i: usize = 0;
        while rest.len() > 0
            invariant
                i + rest@.len() == n == s.len(),
                forall|t: int| 0 <= t < rest@.len() ==> #[trigger] rest@[t] == s[n - 1 - t],
                r@ == kept_references(*symbol_match, s.take(i as int), full_scan),
            decreases rest@.len(),
        {
            let m = rest.pop().unwrap();
            assert(m == s[i as int]);
            assert(s.take(i + 1).drop_last() =~= s.take(i as int));
            assert(s.take(i + 1).last() == s[i as int]);
            let contained = symbol_match.contains(&m);
            let all_ref = str_eq(m.rule_id.as_str(), "all-references");
            if contained && ((full_scan && all_ref) || (!full_scan && !all_ref)) {
                r.push(m);
            }
            i = i + 1;
        }
        assert(s.take(n as int) =~= s);
        r
    }

    /// The symbol whose name starts at the position, and the references inside it, from the
    /// symbols and the references a scan of the file found.
    pub fn get_symbol_and_references(&self, file_symbols: Vec<AstGrepMatch>, references: Vec<AstGrepMatch>, position: &Position, full_scan: bool) -> (r: Result<(AstGrepMatch, Vec<AstGrepMatch>), String>)
        ensures
            r is Err <==> forall|k: int|
                0 <= k < file_symbols@.len() ==> !name_starts_at(#[trigger] file_symbols@[k], *position),
            r matches Err(msg) ==> msg@ == "No symbol found for position"@,
            r matches Ok(pair) ==> exists|i: int|
                0 <= i < file_symbols@.len() && pair.0 == file_symbols@[i] && name_starts_at(pair.0, *position)
                    && forall|k: int| 0 <= k < i ==> !name_starts_at(#[trigger] file_symbols@[k], *position),
            r matches Ok(pair) ==> pair.1@ == kept_references(pair.0, references@, full_scan),
    {
        let symbol = self.get_symbol_match_from_position(file_symbols, position)?;
        let refs = self.get_references_contained_in_symbol_match(references, &symbol, full_scan);
        Ok((symbol, refs))
    }

    /// Orders scan results by the line where each name starts, keeping the scan's order among
    /// names on the same line.
    pub fn sort_scan_results(&self, matches: Vec<AstGrepMatch>) -> (r: Vec<AstGrepMatch>)
        ensures
            is_stable_sort(matches@, r@, |m: AstGrepMatch| scan_key(m)),
            forall|i: int, j: int|
                0 <= i < j < r@.len() ==> (#[trigger] r@[i]).meta_variables.single.name.range.start.line
                    <= (#[trigger] r@[j]).meta_variables.single.name.range.start.line,
            r@.to_multiset() == matches@.to_multiset(),
    {
        let mut keys: Vec<SortKey> = Vec::new();
        let mut i: usize = 0;
        while i < matches.len()
            invariant
                i <= matches@.len(),
                keys@.len() == i,
                forall|k: int| 0 <= k < i ==> key_view(#[trigger] keys@[k]) == scan_key(matches@[k]),
            decreases matches@.len() - i,
        {
            let k = SortKey {
                path: String::new(),
                line: matches[i].meta_variables.single.name.range.start.line,
                character: 0,
            };
            keys.push(k);
            i = i + 1;
        }
        let ghost ms = matches@;
        let r = stable_sort_by_key(matches, keys, Ghost(|m: AstGrepMatch| scan_key(m)));
        proof {
            law_scan_results_in_name_line_order(ms, r@);
        }
        r
    }
}

/// Only local variables are left out of a file's definitions: every match whose rule is not
/// `local-variable` is kept (module-level variables, functions, classes alike), every kept
/// match is one of the file's and none of them is a local variable.
pub proof fn law_definitions_drop_only_local_variables(ms: Seq<AstGrepMatch>)
    ensures
        forall|i: int| 0 <= i < ms.len() && (#[trigger] ms[i]).rule_id@ != "local-variable"@ ==> kept_definitions(ms).contains(ms[i]),
        forall|k: int|
            0 <= k < kept_definitions(ms).len() ==> (#[trigger] kept_definitions(ms)[k]).rule_id@ != "local-variable"@
                && ms.contains(kept_definitions(ms)[k]),
    decreases ms.len(),
{
    broadcast use vstd::seq_lib::lemma_seq_contains_after_push;

    if ms.len() > 0 {
        let init = ms.drop_last();
        law_definitions_drop_only_local_variables(init);
        let r = kept_definitions(ms);
        let ri = kept_definitions(init);
        assert forall|i: int| 0 <= i < ms.len() && (#[trigger] ms[i]).rule_id@ != "local-variable"@ implies r.contains(ms[i]) by {
            if i < ms.len() - 1 {
                assert(init[i] == ms[i]);
                assert(ri.contains(ms[i]));
            } else {
                assert(r[r.len() - 1] == ms[i]);
            }
        }
        assert forall|k: int| 0 <= k < r.len() implies (#[trigger] r[k]).rule_id@ != "local-variable"@ && ms.contains(r[k]) by {
            if k < ri.len() {
                assert(r[k] == ri[k]);
                let j = choose|j: int| 0 <= j < init.len() && init[j] == ri[k];
                assert(ms[j] == init[j]);
            } else {
                assert(r[k] == ms[ms.len() - 1]);
            }
        }
    }
}

/// Scan results come out ordered by the line where each match's name starts (a class
/// before the methods it holds), holding exactly the matches scanned, each as often, and
/// matches whose names start on the same line keep the scan's order.
pub proof fn law_scan_results_in_name_line_order(ms: Seq<AstGrepMatch>, r: Seq<AstGrepMatch>)
    requires
        is_stable_sort(ms, r, |m: AstGrepMatch| scan_key(m)),
    ensures
        forall|i: int, j: int|
            0 <= i < j < r.len() ==> (#[trigger] r[i]).meta_variables.single.name.range.start.line
                <= (#[trigger] r[j]).meta_variables.single.name.range.start.line,
        r.to_multiset() == ms.to_multiset(),
{
    assert forall|i: int, j: int| 0 <= i < j < r.len() implies (#[trigger] r[i]).meta_variables.single.name.range.start.line
        <= (#[trigger] r[j]).meta_variables.single.name.range.start.line by {
        let f = |m: AstGrepMatch| scan_key(m);
        assert(key_le(f(r[i]), f(r[j])));
        let a = f(r[i]);
        let b = f(r[j]);
        assert(a.0 == Seq::<char>::empty() && b.0 == Seq::<char>::empty());
        assert(!lex_lt(a.0, b.0));
    }
    crate::sorting::law_stable_sort_is_permutation(ms, r, |m: AstGrepMatch| scan_key(m));
}

} // verus!
