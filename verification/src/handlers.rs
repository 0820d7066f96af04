//! What the request handlers decide: which definitions and references to report, in what
//! order, with which code around them, and how referenced symbols are sorted into those
//! defined in the workspace, those defined elsewhere and those not found.
use vstd::prelude::*;
use crate::api_types::{
    CodeContext, DefinitionResponse, FilePosition, FileRange, FindIdentifierRequest, Identifier,
    IdentifierResponse, Position, Range, ReferenceWithSymbolDefinitions,
    ReferencedSymbolsResponse, ReferencesResponse, Symbol, range_contains,
};
use crate::ast_grep::{AstGrepMatch, Location, LocationLink, context_range};
use crate::identifiers::{
    PositionError, at_position, distance_fits, find_identifier_at_position, is_closest_selection,
};
use crate::paths::{uri_relative_spec, uri_to_relative_path_string};
use crate::sorting::{is_stable_sort, key_view, reversed, stable_sort_by_key, SortKey};
use crate::text::{contains_string, str_eq, strings_contain};

verus! {

/// What a language server answers to a request for definitions.
#[derive(Debug, PartialEq, Eq)]
pub enum GotoDefinitionResponse {
    Scalar(Location),
    Array(Vec<Location>),
    Link(Vec<LocationLink>),
}

/// The target of a location link, as a location.
pub open spec fn link_location(l: LocationLink) -> Location {
    Location { uri: l.target_uri, range: l.target_range }
}

/// The locations a definition response lists, in order.
pub open spec fn response_locations(r: GotoDefinitionResponse) -> Seq<Location> {
    match r {
        GotoDefinitionResponse::Scalar(l) => seq![l],
        GotoDefinitionResponse::Array(v) => v@,
        GotoDefinitionResponse::Link(v) => v@.map_values(|l: LocationLink| link_location(l)),
    }
}

/// The locations of a definition response, links turned into their targets.
pub fn definition_locations(r: &GotoDefinitionResponse) -> (v: Vec<Location>)
    ensures
        v@ == response_locations(*r),
{
    match r {
        GotoDefinitionResponse::Scalar(l) => {
            let mut v: Vec<Location> = Vec::new();
            v.push(l.clone());
            assert(v@ =~= seq![*l]);
            v
        },
        GotoDefinitionResponse::Array(ls) => {
            let mut v: Vec<Location> = Vec::new();
            let mut i: usize = 0;
            while i < ls.len()
                invariant
                    i <= ls@.len(),
                    v@ == ls@.take(i as int),
                decreases ls@.len() - i,
            {
                v.push(ls[i].clone());
                assert(ls@.take(i + 1) =~= ls@.take(i as int).push(ls@[i as int]));
                i = i + 1;
            }
            assert(ls@.take(ls@.len() as int) =~= ls@);
            v
        },
        GotoDefinitionResponse::Link(links) => {
            let ghost target = links@.map_values(|l: LocationLink| link_location(l));
            let mut v: Vec<Location> = Vec::new();
            let mut i: usize = 0;
            while i < links.len()
                invariant
                    i <= links@.len(),
                    target == links@.map_values(|l: LocationLink| link_location(l)),
                    v@ == target.take(i as int),
                decreases links@.len() - i,
            {
                let l = Location { uri: links[i].target_uri.clone(), range: links[i].target_range.clone() };
                v.push(l);
                assert(target.take(i + 1) =~= target.take(i as int).push(target[i as int]));
                i = i + 1;
            }
            assert(target.take(links@.len() as int) =~= target);
            v
        },
    }
}

/// `p` is the file position of location `l`: its path relative to the mount directory and
/// the start of its range.
pub open spec fn is_location_position(l: Location, mount_dir: Seq<char>, p: FilePosition) -> bool {
    p.path@ == uri_relative_spec(l.uri@, mount_dir) && p.position == l.range.start
}

/// The file position of a location.
pub fn location_position(l: &Location, mount_dir: &str) -> (p: FilePosition)
    ensures
        is_location_position(*l, mount_dir@, p),
{
    FilePosition {
        path: uri_to_relative_path_string(l.uri.as_str(), mount_dir),
        position: Position { line: l.range.start.line, character: l.range.start.character },
    }
}

/// The file positions of locations, in order.
pub fn locations_to_positions(locs: &Vec<Location>, mount_dir: &str) -> (v: Vec<FilePosition>)
    ensures
        v@.len() == locs@.len(),
        forall|i: int| 0 <= i < locs@.len() ==> is_location_position(locs@[i], mount_dir@, #[trigger] v@[i]),
{
    let mut v: Vec<FilePosition> = Vec::new();
    let mut i: usize = 0;
    while i < locs.len()
        invariant
            i <= locs@.len(),
            v@.len() == i,
            forall|k: int| 0 <= k < i ==> is_location_position(locs@[k], mount_dir@, #[trigger] v@[k]),
        decreases locs@.len() - i,
    {
        v.push(location_position(&locs[i], mount_dir));
        i = i + 1;
    }
    v
}

/// The file positions of the definitions a response lists, in order.
pub fn definition_positions(r: &GotoDefinitionResponse, mount_dir: &str) -> (v: Vec<FilePosition>)
    ensures
        v@.len() == response_locations(*r).len(),
        forall|i: int|
            0 <= i < v@.len() ==> is_location_position(response_locations(*r)[i], mount_dir@, #[trigger] v@[i]),
{
    let locs = definition_locations(r);
    locations_to_positions(&locs, mount_dir)
}

/// The key by which definitions are ordered: relative path, then start line, then start
/// character.
pub open spec fn location_key(l: Location, mount_dir: Seq<char>) -> (Seq<char>, u32, u32) {
    (uri_relative_spec(l.uri@, mount_dir), l.range.start.line, l.range.start.character)
}

/// The sort keys of locations.
fn location_keys(locs: &Vec<Location>, mount_dir: &str) -> (keys: Vec<SortKey>)
    ensures
        keys@.len() == locs@.len(),
        forall|i: int| 0 <= i < locs@.len() ==> key_view(#[trigger] keys@[i]) == location_key(locs@[i], mount_dir@),
{
    let mut keys: Vec<SortKey> = Vec::new();
    let mut i: usize = 0;
    while i < locs.len()
        invariant
            i <= locs@.len(),
            keys@.len() == i,
            forall|k: int| 0 <= k < i ==> key_view(#[trigger] keys@[k]) == location_key(locs@[k], mount_dir@),
        decreases locs@.len() - i,
    {
        keys.push(
            SortKey {
                path: uri_to_relative_path_string(locs[i].uri.as_str(), mount_dir),
                line: locs[i].range.start.line,
                character: locs[i].range.start.character,
            },
        );
        i = i + 1;
    }
    keys
}

/// Orders the definitions of a response by relative path, line and character, keeping the
/// server's order among equals; a single location stays as it is.
pub fn sort_definition_response(r: GotoDefinitionResponse, mount_dir: &str) -> (s: GotoDefinitionResponse)
    ensures
        match (r, s) {
            (GotoDefinitionResponse::Scalar(a), GotoDefinitionResponse::Scalar(b)) => a == b,
            (GotoDefinitionResponse::Array(a), GotoDefinitionResponse::Array(b)) => is_stable_sort(
                a@,
                b@,
                |l: Location| location_key(l, mount_dir@),
            ),
            (GotoDefinitionResponse::Link(a), GotoDefinitionResponse::Link(b)) => is_stable_sort(
                a@,
                b@,
                |l: LocationLink| location_key(link_location(l), mount_dir@),
            ),
            _ => false,
        },
{
    let ghost md = mount_dir@;
    match r {
        GotoDefinitionResponse::Scalar(l) => GotoDefinitionResponse::Scalar(l),
        GotoDefinitionResponse::Array(locs) => {
            let keys = location_keys(&locs, mount_dir);
            let sorted = stable_sort_by_key(locs, keys, Ghost(|l: Location| location_key(l, md)));
            GotoDefinitionResponse::Array(sorted)
        },
        GotoDefinitionResponse::Link(links) => {
            let mut keys: Vec<SortKey> = Vec::new();
            let mut i: usize = 0;
            while i < links.len()
                invariant
                    i <= links@.len(),
                    keys@.len() == i,
                    md == mount_dir@,
                    forall|k: int|
                        0 <= k < i ==> key_view(#[trigger] keys@[k]) == location_key(link_location(links@[k]), md),
                decreases links@.len() - i,
            {
                keys.push(
                    SortKey {
                        path: uri_to_relative_path_string(links[i].target_uri.as_str(), mount_dir),
                        line: links[i].target_range.start.line,
                        character: links[i].target_range.start.character,
                    },
                );
                i = i + 1;
            }
            let sorted = stable_sort_by_key(links, keys, Ghost(|l: LocationLink| location_key(link_location(l), md)));
            GotoDefinitionResponse::Link(sorted)
        },
    }
}

/// The identifiers of `ids` with the given name, in order.
pub open spec fn identifiers_named(ids: Seq<Identifier>, name: Seq<char>) -> Seq<Identifier>
    decreases ids.len(),
{
    if ids.len() == 0 {
        seq![]
    } else if ids.last().name@ == name {
        identifiers_named(ids.drop_last(), name).push(ids.last())
    } else {
        identifiers_named(ids.drop_last(), name)
    }
}

/// The identifier lies in the file and its range contains the position.
pub open spec fn at_path_position(id: Identifier, path: Seq<char>, p: Position) -> bool {
    id.range.path@ == path && range_contains(id.range.start, id.range.end, p)
}

/// Some identifier of `ids` lies at the position of the file.
pub open spec fn some_at_path_position(ids: Seq<Identifier>, path: Seq<char>, p: Position) -> bool {
    exists|i: int| 0 <= i < ids.len() && at_path_position(#[trigger] ids[i], path, p)
}

/// What a search for a name answers, given the identifiers of that name: all of them without
/// a position; with one, the first that lies at it, or else the closest ones.
pub open spec fn identifier_search_result(named: Seq<Identifier>, path: Seq<char>, position: Option<Position>, r: Seq<Identifier>) -> bool {
    match position {
        None => r == named,
        Some(p) => if some_at_path_position(named, path, p) {
            exists|i: int|
                0 <= i < named.len() && at_path_position(named[i], path, p) && (forall|k: int|
                    0 <= k < i ==> !at_path_position(#[trigger] named[k], path, p)) && r == seq![named[i]]
        } else {
            is_closest_selection(named, p, r)
        },
    }
}

/// The identifiers of the given name, moved out of `ids` in order.
fn take_named(ids: Vec<Identifier>, name: &str) -> (r: Vec<Identifier>)
    ensures
        r@ == identifiers_named(ids@, name@),
{
    let ghost s = ids@;
    let n = ids.len();
    let mut rest = reversed(ids);
    let mut r: Vec<Identifier> = Vec::new();
    let mut i: usize = 0;
    while rest.len() > 0
        invariant
            i + rest@.len() == n == s.len(),
            forall|t: int| 0 <= t < rest@.len() ==> #[trigger] rest@[t] == s[n - 1 - t],
            r@ == identifiers_named(s.take(i as int), name@),
        decreases rest@.len(),
    {
        let id = rest.pop().unwrap();
        assert(id == s[i as int]);
        assert(s.take(i + 1).drop_last() =~= s.take(i as int));
        assert(s.take(i + 1).last() == s[i as int]);
        if str_eq(id.name.as_str(), name) {
            r.push(id);
        }
        i = i + 1;
    }
    assert(s.take(n as int) =~= s);
    r
}

/// Finds the identifiers of a name among those of a file: all of them when the request
/// gives no position; with a position, the one that lies at it, or else the (at most) three
/// closest to it.
pub fn find_identifier(file_identifiers: Vec<Identifier>, request: &FindIdentifierRequest) -> (r: IdentifierResponse)
    requires
        request.position matches Some(p) ==> (some_at_path_position(
            identifiers_named(file_identifiers@, request.name@),
            request.path@,
            p,
        ) || forall|i: int|
            0 <= i < identifiers_named(file_identifiers@, request.name@).len() ==> distance_fits(
                #[trigger] identifiers_named(file_identifiers@, request.name@)[i],
                p,
            )),
    ensures
        identifier_search_result(
            identifiers_named(file_identifiers@, request.name@),
            request.path@,
            request.position,
            r.identifiers@,
        ),
{
    let named = take_named(file_identifiers, request.name.as_str());
    let ghost nm = named@;
    if named.len() == 0 {
        let r = IdentifierResponse { identifiers: Vec::new() };
        proof {
            let sel: Seq<int> = Seq::empty();
            assert(r.identifiers@ =~= Seq::<Identifier>::empty());
            assert(nm =~= Seq::<Identifier>::empty());
            if request.position is Some {
                let p = request.position->0;
                assert(crate::identifiers::is_ranked_prefix(nm, p, sel));
                assert(sel.len() == r.identifiers@.len());
                assert(is_closest_selection(nm, p, r.identifiers@));
            }
        }
        return r;
    }
    match &request.position {
        Some(p) => {
            let fp = FilePosition { path: request.path.clone(), position: p.clone() };
            proof {
                assert forall|i: int| 0 <= i < nm.len() implies at_position(#[trigger] nm[i], fp) == at_path_position(
                    nm[i],
                    request.path@,
                    *p,
                ) by {}
            }
            match find_identifier_at_position(named, &fp) {
                Ok(id) => {
                    let mut v: Vec<Identifier> = Vec::new();
                    v.push(id);
                    proof {
                        let i = choose|i: int|
                            0 <= i < nm.len() && id == nm[i] && at_position(nm[i], fp) && forall|k: int|
                                0 <= k < i ==> !at_position(#[trigger] nm[k], fp);
                        assert(v@ =~= seq![nm[i]]);
                        assert(at_path_position(nm[i], request.path@, *p));
                        assert(some_at_path_position(nm, request.path@, *p));
                    }
                    IdentifierResponse { identifiers: v }
                },
                Err(PositionError::IdentifierNotFound { closest }) => {
                    proof {
                        if some_at_path_position(nm, request.path@, *p) {
                            let i = choose|i: int| 0 <= i < nm.len() && at_path_position(#[trigger] nm[i], request.path@, *p);
                            assert(at_position(nm[i], fp));
                        }
                    }
                    IdentifierResponse { identifiers: closest }
                },
            }
        },
        None => IdentifierResponse { identifiers: named },
    }
}

/// The match starts where the position is.
pub open spec fn match_starts_at(m: AstGrepMatch, p: Position) -> bool {
    m.range.start.line == p.line && m.range.start.column == p.character
}

/// `c` is the code context of match `m` in the file: the match's context range and its
/// source code.
pub open spec fn is_match_context(m: AstGrepMatch, path: Seq<char>, c: CodeContext) -> bool {
    let cr = context_range(m);
    &&& c.range.path@ == path
    &&& c.range.start == Position { line: cr.start.line, character: cr.start.column }
    &&& c.range.end == Position { line: cr.end.line, character: cr.end.column }
    &&& c.source_code@ == match m.meta_variables.single.context {
        Some(ctx) => ctx.text@,
        None => m.text@,
    }
}

/// `a - b`, or zero when `b` is larger.
pub open spec fn saturating_sub_spec(a: u32, b: u32) -> u32 {
    if a >= b {
        (a - b) as u32
    } else {
        0
    }
}

/// `a + b`, or the largest `u32` when the sum does not fit.
pub open spec fn saturating_add_spec(a: u32, b: u32) -> u32 {
    if a + b <= u32::MAX {
        (a + b) as u32
    } else {
        u32::MAX
    }
}

fn saturating_sub_u32(a: u32, b: u32) -> (r: u32)
    ensures
        r == saturating_sub_spec(a, b),
{
    if a >= b {
        a - b
    } else {
        0
    }
}

fn saturating_add_u32(a: u32, b: u32) -> (r: u32)
    ensures
        r == saturating_add_spec(a, b),
{
    if a > u32::MAX - b {
        u32::MAX
    } else {
        a + b
    }
}

/// The code around a definition. When a symbol of the file starts where the definition
/// does, the first such symbol's context and source code (`Ok`); otherwise the range to read
/// instead (`Err`): from three lines before the definition's start line, at most back to the
/// first line, to three lines after its end line, from the start of each.
pub fn definition_code_context(relative_path: &str, definition: &Location, file_symbols: &Vec<AstGrepMatch>) -> (r: Result<CodeContext, FileRange>)
    requires
        definition.range.end.line + 3 <= u32::MAX,
    ensures
        r is Ok <==> exists|i: int| 0 <= i < file_symbols@.len() && match_starts_at(#[trigger] file_symbols@[i], definition.range.start),
        r matches Ok(c) ==> exists|i: int|
            0 <= i < file_symbols@.len() && match_starts_at(file_symbols@[i], definition.range.start) && (forall|k: int|
                0 <= k < i ==> !match_starts_at(#[trigger] file_symbols@[k], definition.range.start)) && is_match_context(
                file_symbols@[i],
                relative_path@,
                c,
            ),
        r matches Ok(c) ==> exists|i: int|
            0 <= i < file_symbols@.len() && (#[trigger] file_symbols@[i]).range.start.line == definition.range.start.line
                && file_symbols@[i].range.start.column == definition.range.start.character && c.source_code@ == (
            if file_symbols@[i].meta_variables.single.context is Some {
                file_symbols@[i].meta_variables.single.context->0.text@
            } else {
                file_symbols@[i].text@
            }),
        r matches Err(fr) ==> fr.path@ == relative_path@ && fr.start == (Position {
            line: saturating_sub_spec(definition.range.start.line, 3),
            character: 0,
        }) && fr.end == (Position { line: (definition.range.end.line + 3) as u32, character: 0 }),
{
    let mut i: usize = 0;
    while i < file_symbols.len()
        invariant
            i <= file_symbols@.len(),
            forall|k: int| 0 <= k < i ==> !match_starts_at(#[trigger] file_symbols@[k], definition.range.start),
        decreases file_symbols@.len() - i,
    {
        let m = &file_symbols[i];
        if m.range.start.line == definition.range.start.line && m.range.start.column == definition.range.start.character {
            let cr = m.get_context_range();
            return Ok(
                CodeContext {
                    range: FileRange {
                        path: relative_path.to_owned(),
                        start: Position { line: cr.start.line, character: cr.start.column },
                        end: Position { line: cr.end.line, character: cr.end.column },
                    },
                    source_code: m.get_source_code(),
                },
            );
        }
        i = i + 1;
    }
    Err(
        FileRange {
            path: relative_path.to_owned(),
            start: Position { line: saturating_sub_u32(definition.range.start.line, 3), character: 0 },
            end: Position { line: definition.range.end.line + 3, character: 0 },
        },
    )
}

/// The lines around a reference: `lines` before its start line and after its end line,
/// clamped to the range of `u32`, from the start of each.
pub open spec fn context_lines_range(l: Location, lines: u32) -> Range {
    Range {
        start: Position { line: saturating_sub_spec(l.range.start.line, lines), character: 0 },
        end: Position { line: saturating_add_spec(l.range.end.line, lines), character: 0 },
    }
}

/// The range of code to show around a reference.
pub fn reference_context_range(reference: &Location, context_lines: u32) -> (r: Range)
    ensures
        r == context_lines_range(*reference, context_lines),
{
    Range {
        start: Position { line: saturating_sub_u32(reference.range.start.line, context_lines), character: 0 },
        end: Position { line: saturating_add_u32(reference.range.end.line, context_lines), character: 0 },
    }
}

/// The code context of a reference: the source code read for `range` in the reference's
/// file.
pub fn reference_code_context(reference: &Location, range: &Range, source_code: String, mount_dir: &str) -> (c: CodeContext)
    ensures
        c.range.path@ == uri_relative_spec(reference.uri@, mount_dir@),
        c.range.start == range.start,
        c.range.end == range.end,
        c.source_code == source_code,
{
    CodeContext {
        source_code,
        range: FileRange {
            path: uri_to_relative_path_string(reference.uri.as_str(), mount_dir),
            start: range.start.clone(),
            end: range.end.clone(),
        },
    }
}

/// The code contexts of the references, one per reference and in their order: the lines
/// `context_lines` around each, with `sources[i]` the source code read for the range of
/// `references[i]`.
pub fn reference_code_contexts(references: &Vec<Location>, context_lines: u32, sources: Vec<String>, mount_dir: &str) -> (r: Vec<CodeContext>)
    requires
        sources@.len() == references@.len(),
    ensures
        r@.len() == references@.len(),
        forall|i: int|
            0 <= i < r@.len() ==> (#[trigger] r@[i]).range.path@ == uri_relative_spec(references@[i].uri@, mount_dir@)
                && r@[i].range.start == context_lines_range(references@[i], context_lines).start
                && r@[i].range.end == context_lines_range(references@[i], context_lines).end
                && r@[i].source_code == sources@[i],
{
    let ghost src = sources@;
    let mut rest = reversed(sources);
    let n = references.len();
    let mut r: Vec<CodeContext> = Vec::new();
    let mut i: usize = 0;
    while i < n
        invariant
            i <= n == references@.len() == src.len(),
            i + rest@.len() == n,
            forall|t: int| 0 <= t < rest@.len() ==> #[trigger] rest@[t] == src[n - 1 - t],
            r@.len() == i,
            forall|k: int|
                0 <= k < i ==> (#[trigger] r@[k]).range.path@ == uri_relative_spec(references@[k].uri@, mount_dir@)
                    && r@[k].range.start == context_lines_range(references@[k], context_lines).start
                    && r@[k].range.end == context_lines_range(references@[k], context_lines).end
                    && r@[k].source_code == src[k],
        decreases n - i,
    {
        let source = rest.pop().unwrap();
        assert(source == src[i as int]);
        let range = reference_context_range(&references[i], context_lines);
        r.push(reference_code_context(&references[i], &range, source, mount_dir));
        i = i + 1;
    }
    r
}

/// The location's file, relative to the mount directory, is one of the workspace files.
pub open spec fn in_workspace(l: Location, files: Seq<String>, mount_dir: Seq<char>) -> bool {
    strings_contain(files, uri_relative_spec(l.uri@, mount_dir))
}

/// The locations in workspace files, in order.
pub open spec fn workspace_locations(locs: Seq<Location>, files: Seq<String>, mount_dir: Seq<char>) -> Seq<Location>
    decreases locs.len(),
{
    if locs.len() == 0 {
        seq![]
    } else if in_workspace(locs.last(), files, mount_dir) {
        workspace_locations(locs.drop_last(), files, mount_dir).push(locs.last())
    } else {
        workspace_locations(locs.drop_last(), files, mount_dir)
    }
}

/// The key by which references are ordered: the URI, then the start line.
pub open spec fn reference_key(l: Location) -> (Seq<char>, u32, u32) {
    (l.uri@, l.range.start.line, 0)
}

/// Keeps the references in workspace files and orders them by URI and start line, keeping
/// the server's order among equals.
pub fn filter_references(references: Vec<Location>, files: &Vec<String>, mount_dir: &str) -> (r: Vec<Location>)
    ensures
        is_stable_sort(workspace_locations(references@, files@, mount_dir@), r@, |l: Location| reference_key(l)),
{
    let ghost s = references@;
    let n = references.len();
    let mut rest = reversed(references);
    let mut kept: Vec<Location> = Vec::new();
    let mut keys: Vec<SortKey> = Vec::new();
    let mut i: usize = 0;
    while rest.len() > 0
        invariant
            i + rest@.len() == n == s.len(),
            forall|t: int| 0 <= t < rest@.len() ==> #[trigger] rest@[t] == s[n - 1 - t],
            kept@ == workspace_locations(s.take(i as int), files@, mount_dir@),
            keys@.len() == kept@.len(),
            forall|t: int| 0 <= t < kept@.len() ==> key_view(#[trigger] keys@[t]) == reference_key(kept@[t]),
        decreases rest@.len(),
    {
        let l = rest.pop().unwrap();
        assert(l == s[i as int]);
        assert(s.take(i + 1).drop_last() =~= s.take(i as int));
        assert(s.take(i + 1).last() == s[i as int]);
        let path = uri_to_relative_path_string(l.uri.as_str(), mount_dir);
        if contains_string(files, path.as_str()) {
            keys.push(SortKey { path: l.uri.clone(), line: l.range.start.line, character: 0 });
            kept.push(l);
        }
        i = i + 1;
    }
    assert(s.take(n as int) =~= s);
    stable_sort_by_key(kept, keys, Ghost(|l: Location| reference_key(l)))
}

/// The response to a references request: the references' file positions, in order, with
/// the code contexts, the raw response and the identifier at the requested position.
pub fn find_references(selected_identifier: Identifier, references: &Vec<Location>, context: Option<Vec<CodeContext>>, raw_response: Option<String>, mount_dir: &str) -> (r: ReferencesResponse)
    ensures
        r.references@.len() == references@.len(),
        forall|i: int|
            0 <= i < references@.len() ==> is_location_position(references@[i], mount_dir@, #[trigger] r.references@[i]),
        r.context == context,
        r.raw_response == raw_response,
        r.selected_identifier == selected_identifier,
{
    ReferencesResponse {
        raw_response,
        references: locations_to_positions(references, mount_dir),
        context,
        selected_identifier,
    }
}

/// The response to a definition request: the definitions' file positions, in order, with
/// the code around them, the raw response and the identifier at the requested position.
pub fn find_definition(selected_identifier: Identifier, definitions: &GotoDefinitionResponse, source_code_context: Option<Vec<CodeContext>>, raw_response: Option<String>, mount_dir: &str) -> (r: DefinitionResponse)
    ensures
        r.definitions@.len() == response_locations(*definitions).len(),
        forall|i: int|
            0 <= i < r.definitions@.len() ==> is_location_position(
                response_locations(*definitions)[i],
                mount_dir@,
                #[trigger] r.definitions@[i],
            ),
        r.source_code_context == source_code_context,
        r.raw_response == raw_response,
        r.selected_identifier == selected_identifier,
{
    DefinitionResponse {
        raw_response,
        definitions: definition_positions(definitions, mount_dir),
        source_code_context,
        selected_identifier,
    }
}

/// Some definition lies in a workspace file.
pub open spec fn has_workspace_definition(defs: Seq<FilePosition>, files: Seq<String>) -> bool {
    exists|j: int| 0 <= j < defs.len() && strings_contain(files, (#[trigger] defs[j]).path@)
}

/// The definitions that lie in workspace files, in order.
pub open spec fn workspace_definitions_spec(defs: Seq<FilePosition>, files: Seq<String>) -> Seq<FilePosition>
    decreases defs.len(),
{
    if defs.len() == 0 {
        seq![]
    } else if strings_contain(files, defs.last().path@) {
        workspace_definitions_spec(defs.drop_last(), files).push(defs.last())
    } else {
        workspace_definitions_spec(defs.drop_last(), files)
    }
}

/// Whether some definition lies in a workspace file.
pub fn any_in_workspace(defs: &Vec<FilePosition>, files: &Vec<String>) -> (r: bool)
    ensures
        r == has_workspace_definition(defs@, files@),
{
    let mut j: usize = 0;
    while j < defs.len()
        invariant
            j <= defs@.len(),
            forall|k: int| 0 <= k < j ==> !strings_contain(files@, (#[trigger] defs@[k]).path@),
        decreases defs@.len() - j,
    {
        if contains_string(files, defs[j].path.as_str()) {
            return true;
        }
        j = j + 1;
    }
    false
}

/// The definitions that lie in workspace files: those whose symbols are looked up.
pub fn workspace_definitions(defs: &Vec<FilePosition>, files: &Vec<String>) -> (r: Vec<FilePosition>)
    ensures
        r@ == workspace_definitions_spec(defs@, files@),
{
    let mut r: Vec<FilePosition> = Vec::new();
    let mut j: usize = 0;
    while j < defs.len()
        invariant
            j <= defs@.len(),
            r@ == workspace_definitions_spec(defs@.take(j as int), files@),
        decreases defs@.len() - j,
    {
        assert(defs@.take(j + 1).drop_last() =~= defs@.take(j as int));
        assert(defs@.take(j + 1).last() == defs@[j as int]);
        if contains_string(files, defs[j].path.as_str()) {
            r.push(defs[j].clone());
        }
        j = j + 1;
    }
    assert(defs@.take(defs@.len() as int) =~= defs@);
    r
}

/// A referenced symbol belongs to the workspace: one of its definitions lies in a workspace
/// file and a symbol was found there.
pub open spec fn goes_to_workspace(defs: Seq<FilePosition>, found: Seq<Symbol>, files: Seq<String>) -> bool {
    has_workspace_definition(defs, files) && found.len() > 0
}

/// A referenced symbol is external: it has definitions, none in a workspace file.
pub open spec fn goes_to_external(defs: Seq<FilePosition>, files: Seq<String>) -> bool {
    defs.len() > 0 && !has_workspace_definition(defs, files)
}

/// A referenced symbol is not found: it has no definition, or none of its definitions in
/// workspace files led to a symbol.
pub open spec fn goes_to_not_found(defs: Seq<FilePosition>, found: Seq<Symbol>, files: Seq<String>) -> bool {
    defs.len() == 0 || (has_workspace_definition(defs, files) && found.len() == 0)
}

/// The workspace symbols among the first `n` references, in order.
pub open spec fn workspace_refs(entries: Seq<(Identifier, Vec<FilePosition>)>, found: Seq<Vec<Symbol>>, files: Seq<String>, n: int) -> Seq<ReferenceWithSymbolDefinitions>
    decreases n,
{
    if n <= 0 {
        seq![]
    } else if goes_to_workspace(entries[n - 1].1@, found[n - 1]@, files) {
        workspace_refs(entries, found, files, n - 1).push(
            ReferenceWithSymbolDefinitions { reference: entries[n - 1].0, definitions: found[n - 1] },
        )
    } else {
        workspace_refs(entries, found, files, n - 1)
    }
}

/// The external symbols among the first `n` references, in order.
pub open spec fn external_refs(entries: Seq<(Identifier, Vec<FilePosition>)>, files: Seq<String>, n: int) -> Seq<Identifier>
    decreases n,
{
    if n <= 0 {
        seq![]
    } else if goes_to_external(entries[n - 1].1@, files) {
        external_refs(entries, files, n - 1).push(entries[n - 1].0)
    } else {
        external_refs(entries, files, n - 1)
    }
}

/// The references not found among the first `n`, in order.
pub open spec fn not_found_refs(entries: Seq<(Identifier, Vec<FilePosition>)>, found: Seq<Vec<Symbol>>, files: Seq<String>, n: int) -> Seq<Identifier>
    decreases n,
{
    if n <= 0 {
        seq![]
    } else if goes_to_not_found(entries[n - 1].1@, found[n - 1]@, files) {
        not_found_refs(entries, found, files, n - 1).push(entries[n - 1].0)
    } else {
        not_found_refs(entries, found, files, n - 1)
    }
}

/// The key by which referenced symbols are ordered: the file, then the start line.
pub open spec fn identifier_key(id: Identifier) -> (Seq<char>, u32, u32) {
    (id.range.path@, id.range.start.line, 0)
}

fn identifier_sort_key(id: &Identifier) -> (k: SortKey)
    ensures
        key_view(k) == identifier_key(*id),
{
    SortKey { path: id.range.path.clone(), line: id.range.start.line, character: 0 }
}

/// Sorts the symbols referenced from a symbol into those defined in the workspace (with the
/// symbols found at their workspace definitions), those defined elsewhere, and those not
/// found, each ordered by file and line, keeping the order of the references among equals.
/// `entries[i]` pairs a reference with its definitions; `found[i]` holds the symbols found
/// at those of its definitions that lie in workspace files.
pub fn find_referenced_symbols(entries: Vec<(Identifier, Vec<FilePosition>)>, files: &Vec<String>, found: Vec<Vec<Symbol>>) -> (r: ReferencedSymbolsResponse)
    requires
        entries@.len() == found@.len(),
    ensures
        is_stable_sort(
            workspace_refs(entries@, found@, files@, entries@.len() as int),
            r.workspace_symbols@,
            |w: ReferenceWithSymbolDefinitions| identifier_key(w.reference),
        ),
        is_stable_sort(
            external_refs(entries@, files@, entries@.len() as int),
            r.external_symbols@,
            |id: Identifier| identifier_key(id),
        ),
        is_stable_sort(
            not_found_refs(entries@, found@, files@, entries@.len() as int),
            r.not_found@,
            |id: Identifier| identifier_key(id),
        ),
{
    let ghost es = entries@;
    let ghost fs = found@;
    let n = entries.len();
    let mut rest = reversed(entries);
    let mut rest_found = reversed(found);
    let mut ws: Vec<ReferenceWithSymbolDefinitions> = Vec::new();
    let mut ws_keys: Vec<SortKey> = Vec::new();
    let mut ext: Vec<Identifier> = Vec::new();
    let mut ext_keys: Vec<SortKey> = Vec::new();
    let mut nf: Vec<Identifier> = Vec::new();
    let mut nf_keys: Vec<SortKey> = Vec::new();
    let mut i: usize = 0;
    while rest.len() > 0
        invariant
            i + rest@.len() == n == es.len() == fs.len(),
            rest_found@.len() == rest@.len(),
            forall|t: int| 0 <= t < rest@.len() ==> #[trigger] rest@[t] == es[n - 1 - t],
            forall|t: int| 0 <= t < rest_found@.len() ==> #[trigger] rest_found@[t] == fs[n - 1 - t],
            ws@ == workspace_refs(es, fs, files@, i as int),
            ext@ == external_refs(es, files@, i as int),
            nf@ == not_found_refs(es, fs, files@, i as int),
            ws_keys@.len() == ws@.len(),
            ext_keys@.len() == ext@.len(),
            nf_keys@.len() == nf@.len(),
            forall|t: int| 0 <= t < ws@.len() ==> key_view(#[trigger] ws_keys@[t]) == identifier_key(ws@[t].reference),
            forall|t: int| 0 <= t < ext@.len() ==> key_view(#[trigger] ext_keys@[t]) == identifier_key(ext@[t]),
            forall|t: int| 0 <= t < nf@.len() ==> key_view(#[trigger] nf_keys@[t]) == identifier_key(nf@[t]),
        decreases rest@.len(),
    {
        let (id, defs) = rest.pop().unwrap();
        let symbols = rest_found.pop().unwrap();
        assert(id == es[i as int].0 && defs == es[i as int].1);
        assert(symbols == fs[i as int]);
        let key = identifier_sort_key(&id);
        if defs.len() == 0 {
            nf.push(id);
            nf_keys.push(key);
        } else if any_in_workspace(&defs, files) {
            if symbols.len() > 0 {
                ws.push(ReferenceWithSymbolDefinitions { reference: id, definitions: symbols });
                ws_keys.push(key);
            } else {
                nf.push(id);
                nf_keys.push(key);
            }
        } else {
            ext.push(id);
            ext_keys.push(key);
        }
        i = i + 1;
    }
    let workspace_symbols = stable_sort_by_key(
        ws,
        ws_keys,
        Ghost(|w: ReferenceWithSymbolDefinitions| identifier_key(w.reference)),
    );
    let external_symbols = stable_sort_by_key(ext, ext_keys, Ghost(|id: Identifier| identifier_key(id)));
    let not_found = stable_sort_by_key(nf, nf_keys, Ghost(|id: Identifier| identifier_key(id)));
    ReferencedSymbolsResponse { workspace_symbols, external_symbols, not_found }
}

/// Every referenced symbol is reported exactly once: in the workspace, external, or not
/// found. So the three lists together are as long as the references.
pub proof fn law_referenced_symbols_partition(entries: Seq<(Identifier, Vec<FilePosition>)>, found: Seq<Vec<Symbol>>, files: Seq<String>, n: int)
    requires
        0 <= n <= entries.len(),
        entries.len() == found.len(),
    ensures
        workspace_refs(entries, found, files, n).len() + external_refs(entries, files, n).len() + not_found_refs(
            entries,
            found,
            files,
            n,
        ).len() == n,
    decreases n,
{
    if n > 0 {
        law_referenced_symbols_partition(entries, found, files, n - 1);
        let defs = entries[n - 1].1@;
        let f = found[n - 1]@;
        if goes_to_workspace(defs, f, files) {
            assert(!goes_to_external(defs, files));
            assert(!goes_to_not_found(defs, f, files)) by {
                let j = choose|j: int| 0 <= j < defs.len() && strings_contain(files, (#[trigger] defs[j]).path@);
            }
        } else if goes_to_external(defs, files) {
            assert(!goes_to_not_found(defs, f, files));
        } else {
            assert(goes_to_not_found(defs, f, files));
        }
    }
}

/// Each referenced symbol falls in exactly one of the three lists: the workspace, external,
/// or not found.
pub proof fn law_reference_in_exactly_one_list(defs: Seq<FilePosition>, found: Seq<Symbol>, files: Seq<String>)
    ensures
        goes_to_workspace(defs, found, files) || goes_to_external(defs, files) || goes_to_not_found(defs, found, files),
        !(goes_to_workspace(defs, found, files) && goes_to_external(defs, files)),
        !(goes_to_workspace(defs, found, files) && goes_to_not_found(defs, found, files)),
        !(goes_to_external(defs, files) && goes_to_not_found(defs, found, files)),
{
    if has_workspace_definition(defs, files) {
        let j = choose|j: int| 0 <= j < defs.len() && strings_contain(files, (#[trigger] defs[j]).path@);
        assert(defs.len() > 0);
    }
}

/// Each of the first `n` references is in the list its definitions decide: the workspace
/// list (with the symbols found for it), the external list, or the not-found list.
pub proof fn law_reference_lands_in_its_list(entries: Seq<(Identifier, Vec<FilePosition>)>, found: Seq<Vec<Symbol>>, files: Seq<String>, n: int, k: int)
    requires
        0 <= k < n <= entries.len(),
        entries.len() == found.len(),
    ensures
        goes_to_workspace(entries[k].1@, found[k]@, files) ==> workspace_refs(entries, found, files, n).contains(
            ReferenceWithSymbolDefinitions { reference: entries[k].0, definitions: found[k] },
        ),
        goes_to_external(entries[k].1@, files) ==> external_refs(entries, files, n).contains(entries[k].0),
        goes_to_not_found(entries[k].1@, found[k]@, files) ==> not_found_refs(entries, found, files, n).contains(entries[k].0),
    decreases n,
{
    broadcast use vstd::seq_lib::lemma_seq_contains_after_push;

    if k < n - 1 {
        law_reference_lands_in_its_list(entries, found, files, n - 1, k);
    } else {
        law_reference_in_exactly_one_list(entries[k].1@, found[k]@, files);
    }
}

/// When a symbol of the file starts where a definition does, the code shown for the
/// definition is that symbol's own code: the whole text its context captured (for a
/// function, its full definition), or the match's text when it captured no context; and the
/// range shown is the captured context's, in the definition's file.
pub proof fn law_definition_context_is_symbol_code(m: AstGrepMatch, path: Seq<char>, c: CodeContext)
    requires
        is_match_context(m, path, c),
    ensures
        c.range.path@ == path,
        m.meta_variables.single.context is Some ==> c.source_code@ == m.meta_variables.single.context->0.text@
            && c.range.start.line == m.meta_variables.single.context->0.range.start.line
            && c.range.end.line == m.meta_variables.single.context->0.range.end.line,
        m.meta_variables.single.context is None ==> c.source_code@ == m.text@ && c.range.start.line
            == m.range.start.line && c.range.end.line == m.range.end.line,
{
}

/// What a definition lookup answers when a file symbol starts at the definition: the code
/// context of the first such symbol, whose source code is that symbol's captured context
/// text (or its match text without a context).
pub proof fn law_definition_lookup_gives_symbol_code(relative_path: Seq<char>, definition: Location, file_symbols: Seq<AstGrepMatch>, c: CodeContext)
    requires
        exists|i: int|
            0 <= i < file_symbols.len() && match_starts_at(file_symbols[i], definition.range.start) && (forall|k: int|
                0 <= k < i ==> !match_starts_at(#[trigger] file_symbols[k], definition.range.start)) && is_match_context(
                file_symbols[i],
                relative_path,
                c,
            ),
    ensures
        exists|i: int|
            0 <= i < file_symbols.len() && file_symbols[i].range.start.line == definition.range.start.line
                && file_symbols[i].range.start.column == definition.range.start.character && c.source_code@ == (if file_symbols[i].meta_variables.single.context is Some {
                file_symbols[i].meta_variables.single.context->0.text@
            } else {
                file_symbols[i].text@
            }),
{
    let i = choose|i: int|
        0 <= i < file_symbols.len() && match_starts_at(file_symbols[i], definition.range.start) && (forall|k: int|
            0 <= k < i ==> !match_starts_at(#[trigger] file_symbols[k], definition.range.start)) && is_match_context(
            file_symbols[i],
            relative_path,
            c,
        );
    law_definition_context_is_symbol_code(file_symbols[i], relative_path, c);
}

/// A search for a name keeps exactly the identifiers of that name: every identifier it keeps
/// has the name itself (not merely a name that starts with it), every identifier of the file
/// with that name is kept, and no more are kept than the file has.
pub proof fn law_identifiers_named_exactly(ids: Seq<Identifier>, name: Seq<char>)
    ensures
        forall|k: int| 0 <= k < identifiers_named(ids, name).len() ==> (#[trigger] identifiers_named(ids, name)[k]).name@ == name,
        forall|k: int| 0 <= k < identifiers_named(ids, name).len() ==> ids.contains(#[trigger] identifiers_named(ids, name)[k]),
        forall|i: int| 0 <= i < ids.len() && (#[trigger] ids[i]).name@ == name ==> identifiers_named(ids, name).contains(ids[i]),
        identifiers_named(ids, name).len() <= ids.len(),
    decreases ids.len(),
{
    broadcast use vstd::seq_lib::lemma_seq_contains_after_push;

    if ids.len() > 0 {
        let init = ids.drop_last();
        law_identifiers_named_exactly(init, name);
        let r = identifiers_named(ids, name);
        let ri = identifiers_named(init, name);
        assert forall|k: int| 0 <= k < r.len() implies ids.contains(#[trigger] r[k]) by {
            if k < ri.len() {
                assert(r[k] == ri[k]);
                let j = choose|j: int| 0 <= j < init.len() && init[j] == ri[k];
                assert(ids[j] == init[j]);
            } else {
                assert(r[k] == ids[ids.len() - 1]);
            }
        }
        assert forall|k: int| 0 <= k < r.len() implies (#[trigger] r[k]).name@ == name by {
            if k < ri.len() {
                assert(r[k] == ri[k]);
            }
        }
        assert forall|i: int| 0 <= i < ids.len() && (#[trigger] ids[i]).name@ == name implies r.contains(ids[i]) by {
            if i < ids.len() - 1 {
                assert(init[i] == ids[i]);
                assert(ri.contains(ids[i]));
            } else {
                assert(r[r.len() - 1] == ids[i]);
            }
        }
    }
}

/// Without a position, a search for a name answers every identifier of the file with
/// exactly that name and nothing else.
pub proof fn law_find_identifier_without_position(file_identifiers: Seq<Identifier>, name: Seq<char>, path: Seq<char>, r: Seq<Identifier>)
    requires
        identifier_search_result(identifiers_named(file_identifiers, name), path, None, r),
    ensures
        forall|k: int| 0 <= k < r.len() ==> (#[trigger] r[k]).name@ == name && file_identifiers.contains(r[k]),
        forall|i: int| 0 <= i < file_identifiers.len() && (#[trigger] file_identifiers[i]).name@ == name ==> r.contains(
            file_identifiers[i],
        ),
{
    law_identifiers_named_exactly(file_identifiers, name);
}

} // verus!
