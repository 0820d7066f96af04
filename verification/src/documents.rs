//! The documents of a workspace as a language client keeps them: a cache from file path to
//! content (absent until read), the glob patterns that say which files belong to the
//! workspace, and the documents already announced to the server as open.
use vstd::prelude::*;
use crate::api_types::Range;
use crate::paths::{file_uri, opt_view, spec_file_uri};
use crate::text::{extract_range, extract_range_spec, str_eq};

verus! {

/// Whether documents are announced to the server when first needed (`Lazy`), or not at all
/// (`Never`).
#[derive(Debug, Clone, Copy, PartialEq, Eq, Structural)]
pub enum DidOpenConfiguration {
    Lazy,
    Never,
}

/// What `glob::Pattern::new(pattern)` followed by `Pattern::matches(path)` gives: `None` when
/// the pattern does not compile, else whether the path matches.
pub uninterp spec fn spec_glob_matches(pattern: Seq<char>, path: Seq<char>) -> Option<bool>;

/// Compiles the pattern with `glob::Pattern::new` and matches the path against it with
/// `Pattern::matches`. Claimed: the result is a function of the pattern and the path alone,
/// `None` exactly when the pattern does not compile.
#[verifier::external_body]
fn glob_matches(pattern: &str, path: &str) -> (r: Option<bool>)
    ensures
        r == spec_glob_matches(pattern@, path@),
{
    match glob::Pattern::new(pattern) {
        Ok(p) => Some(p.matches(path)),
        Err(_) => None,
    }
}

/// What `String::from_utf8_lossy` decodes from the bytes.
pub uninterp spec fn spec_utf8_lossy(bytes: Seq<u8>) -> Seq<char>;

/// Decodes the bytes with `String::from_utf8_lossy`, which puts a replacement character for
/// each invalid sequence. Claimed: the result is a function of the bytes alone.
#[verifier::external_body]
fn utf8_lossy(bytes: &[u8]) -> (r: String)
    ensures
        r@ == spec_utf8_lossy(bytes@),
{
    String::from_utf8_lossy(bytes).into_owned()
}

/// Whether patterns, tried in order, match the path: `Some(true)` at the first that
/// matches, `Some(false)` when none does, `None` when a pattern tried before any match does
/// not compile.
pub open spec fn any_pattern_matches(patterns: Seq<String>, path: Seq<char>, from: int) -> Option<bool>
    decreases patterns.len() - from,
{
    if from < 0 || from >= patterns.len() {
        Some(false)
    } else {
        match spec_glob_matches(patterns[from]@, path) {
            None => None,
            Some(true) => Some(true),
            Some(false) => any_pattern_matches(patterns, path, from + 1),
        }
    }
}

/// Whether patterns, given by their text, tried in order, match the path.
pub open spec fn any_pattern_matches_seq(patterns: Seq<Seq<char>>, path: Seq<char>) -> Option<bool>
    decreases patterns.len(),
{
    if patterns.len() == 0 {
        Some(false)
    } else {
        match spec_glob_matches(patterns[0], path) {
            None => None,
            Some(true) => Some(true),
            Some(false) => any_pattern_matches_seq(patterns.drop_first(), path),
        }
    }
}

/// The two ways of trying patterns agree.
pub proof fn lemma_any_pattern_matches_seq(patterns: Seq<String>, path: Seq<char>)
    ensures
        any_pattern_matches(patterns, path, 0) == any_pattern_matches_seq(patterns.map_values(|s: String| s@), path),
{
    lemma_any_from(patterns, path, 0);
    assert(patterns.map_values(|s: String| s@).skip(0) =~= patterns.map_values(|s: String| s@));
}

proof fn lemma_any_from(patterns: Seq<String>, path: Seq<char>, from: int)
    requires
        0 <= from <= patterns.len(),
    ensures
        any_pattern_matches(patterns, path, from) == any_pattern_matches_seq(
            patterns.map_values(|s: String| s@).skip(from),
            path,
        ),
    decreases patterns.len() - from,
{
    let v = patterns.map_values(|s: String| s@);
    if from < patterns.len() {
        lemma_any_from(patterns, path, from + 1);
        assert(v.skip(from).drop_first() =~= v.skip(from + 1));
        assert(v.skip(from)[0] == patterns[from]@);
    } else {
        assert(v.skip(from) =~= Seq::<Seq<char>>::empty());
    }
}

/// Whether a path belongs to the workspace: some include pattern matches it and no exclude
/// pattern does; `None` when a pattern that had to be tried does not compile.
pub open spec fn matches_patterns_spec(included: Seq<String>, excluded: Seq<String>, path: Seq<char>) -> Option<bool> {
    match any_pattern_matches(included, path, 0) {
        None => None,
        Some(false) => Some(false),
        Some(true) => match any_pattern_matches(excluded, path, 0) {
            None => None,
            Some(b) => Some(!b),
        },
    }
}

pub(crate) fn any_matches(patterns: &Vec<String>, path: &str) -> (r: Option<bool>)
    ensures
        r == any_pattern_matches(patterns@, path@, 0),
{
    let mut i: usize = 0;
    while i < patterns.len()
        invariant
            i <= patterns@.len(),
            any_pattern_matches(patterns@, path@, 0) == any_pattern_matches(patterns@, path@, i as int),
        decreases patterns@.len() - i,
    {
        match glob_matches(patterns[i].as_str(), path) {
            None => {
                return None;
            },
            Some(true) => {
                return Some(true);
            },
            Some(false) => {},
        }
        i = i + 1;
    }
    Some(false)
}

/// The entry of the cache for a path, when there is one.
pub open spec fn cache_entry(cache: Seq<(String, Option<String>)>, path: Seq<char>) -> bool {
    exists|i: int| 0 <= i < cache.len() && (#[trigger] cache[i]).0@ == path
}

/// No path occurs twice in the cache.
pub open spec fn distinct_paths(cache: Seq<(String, Option<String>)>) -> bool {
    forall|i: int, j: int| 0 <= i < j < cache.len() ==> (#[trigger] cache[i]).0@ != (#[trigger] cache[j]).0@
}

/// No URI occurs twice.
pub open spec fn distinct_strings(v: Seq<String>) -> bool {
    forall|i: int, j: int| 0 <= i < j < v.len() ==> (#[trigger] v[i])@ != (#[trigger] v[j])@
}

/// The map that a cache of distinct paths stands for.
pub open spec fn cache_map(cache: Seq<(String, Option<String>)>) -> Map<Seq<char>, Option<Seq<char>>> {
    Map::new(
        |k: Seq<char>| cache_entry(cache, k),
        |k: Seq<char>|
            opt_view(cache[choose|i: int| 0 <= i < cache.len() && (#[trigger] cache[i]).0@ == k].1),
    )
}

/// A copy of a list of strings.
fn copy_strings(v: &Vec<String>) -> (r: Vec<String>)
    ensures
        r@.map_values(|p: String| p@) == v@.map_values(|p: String| p@),
{
    let mut r: Vec<String> = Vec::new();
    let mut i: usize = 0;
    while i < v.len()
        invariant
            i <= v@.len(),
            r@.map_values(|p: String| p@) == v@.take(i as int).map_values(|p: String| p@),
        decreases v@.len() - i,
    {
        let ghost before = r@.map_values(|p: String| p@);
        let c = v[i].clone();
        r.push(c);
        assert(r@.map_values(|p: String| p@) =~= before.push(v@[i as int]@));
        assert(v@.take(i + 1).map_values(|p: String| p@) =~= v@.take(i as int).map_values(|p: String| p@).push(
            v@[i as int]@,
        ));
        i = i + 1;
    }
    assert(v@.take(v@.len() as int) =~= v@);
    r
}

/// The set of strings a list holds.
pub open spec fn string_set(v: Seq<String>) -> Set<Seq<char>> {
    Set::new(|s: Seq<char>| exists|i: int| 0 <= i < v.len() && (#[trigger] v[i])@ == s)
}

/// The documents of a workspace.
pub struct WorkspaceDocumentsHandler {
    cache: Vec<(String, Option<String>)>,
    include_patterns: Vec<String>,
    exclude_patterns: Vec<String>,
    root_path: String,
    did_open_text_documents: Vec<String>,
    did_open_configuration: DidOpenConfiguration,
}

/// The content a cache holds for a path: `Some` when the file has been read.
pub open spec fn cached_content_spec(m: Map<Seq<char>, Option<Seq<char>>>, path: Seq<char>) -> Option<Seq<char>> {
    if m.dom().contains(path) {
        m[path]
    } else {
        None
    }
}

impl WorkspaceDocumentsHandler {
    /// No path and no URI occurs twice.
    pub closed spec fn wf(&self) -> bool {
        distinct_paths(self.cache@) && distinct_strings(self.did_open_text_documents@)
    }

    /// The cache: each known file path, with its content once read.
    pub closed spec fn cache_view(&self) -> Map<Seq<char>, Option<Seq<char>>> {
        cache_map(self.cache@)
    }

    /// The include patterns.
    pub closed spec fn include_view(&self) -> Seq<String> {
        self.include_patterns@
    }

    /// The exclude patterns.
    pub closed spec fn exclude_view(&self) -> Seq<String> {
        self.exclude_patterns@
    }

    /// The root of the workspace.
    pub closed spec fn root_view(&self) -> Seq<char> {
        self.root_path@
    }

    /// The URIs of the documents announced as open.
    pub closed spec fn did_open_view(&self) -> Set<Seq<char>> {
        string_set(self.did_open_text_documents@)
    }

    /// How documents are announced.
    pub closed spec fn configuration_view(&self) -> DidOpenConfiguration {
        self.did_open_configuration
    }

    /// A handler with an empty cache and no open documents.
    pub fn new(root_path: &str, include_patterns: Vec<String>, exclude_patterns: Vec<String>, did_open_configuration: DidOpenConfiguration) -> (r: Self)
        ensures
            r.wf(),
            r.cache_view() == Map::<Seq<char>, Option<Seq<char>>>::empty(),
            r.include_view() == include_patterns@,
            r.exclude_view() == exclude_patterns@,
            r.root_view() == root_path@,
            r.did_open_view() == Set::<Seq<char>>::empty(),
            r.configuration_view() == did_open_configuration,
    {
        let r = WorkspaceDocumentsHandler {
            cache: Vec::new(),
            include_patterns,
            exclude_patterns,
            root_path: root_path.to_owned(),
            did_open_text_documents: Vec::new(),
            did_open_configuration,
        };
        assert(r.cache_view() =~= Map::<Seq<char>, Option<Seq<char>>>::empty());
        assert(r.did_open_view() =~= Set::<Seq<char>>::empty());
        r
    }

    /// Whether a path belongs to the workspace by the current patterns: some include pattern
    /// matches it and no exclude pattern does. `None` when a pattern that had to be tried
    /// does not compile.
    pub fn matches_patterns(&self, path: &str) -> (r: Option<bool>)
        ensures
            r == matches_patterns_spec(self.include_view(), self.exclude_view(), path@),
    {
        match any_matches(&self.include_patterns, path) {
            None => None,
            Some(false) => Some(false),
            Some(true) => match any_matches(&self.exclude_patterns, path) {
                None => None,
                Some(b) => Some(!b),
            },
        }
    }

    /// A change was seen at `path`: when the path belongs to the workspace, the cache is
    /// cleared, so that the files are listed and read anew. Gives what the pattern test gave.
    pub fn handle_watch_event(&mut self, path: &str) -> (r: Option<bool>)
        requires
            old(self).wf(),
        ensures
            final(self).wf(),
            r == matches_patterns_spec(old(self).include_view(), old(self).exclude_view(), path@),
            r == Some(true) ==> final(self).cache_view() == Map::<Seq<char>, Option<Seq<char>>>::empty(),
            r != Some(true) ==> final(self).cache_view() == old(self).cache_view(),
            final(self).include_view() == old(self).include_view(),
            final(self).exclude_view() == old(self).exclude_view(),
            final(self).root_view() == old(self).root_view(),
            final(self).did_open_view() == old(self).did_open_view(),
            final(self).configuration_view() == old(self).configuration_view(),
    {
        let r = self.matches_patterns(path);
        if r == Some(true) {
            self.cache = Vec::new();
            assert(self.cache_view() =~= Map::<Seq<char>, Option<Seq<char>>>::empty());
        }
        r
    }

    fn find_entry(&self, path: &str) -> (r: Option<usize>)
        requires
            self.wf(),
        ensures
            r matches Some(i) ==> i < self.cache@.len() && self.cache@[i as int].0@ == path@,
            r is None ==> !cache_entry(self.cache@, path@),
    {
        let mut i: usize = 0;
        while i < self.cache.len()
            invariant
                i <= self.cache@.len(),
                forall|k: int| 0 <= k < i ==> (#[trigger] self.cache@[k]).0@ != path@,
            decreases self.cache@.len() - i,
        {
            if str_eq(self.cache[i].0.as_str(), path) {
                return Some(i);
            }
            i = i + 1;
        }
        None
    }

    /// The content cached for a path, when the file has been read.
    pub fn cached_content(&self, path: &str) -> (r: Option<String>)
        requires
            self.wf(),
        ensures
            opt_view(r) == cached_content_spec(self.cache_view(), path@),
    {
        match self.find_entry(path) {
            Some(i) => {
                proof {
                    let j = choose|j: int| 0 <= j < self.cache@.len() && (#[trigger] self.cache@[j]).0@ == path@;
                    assert(self.cache@[i as int].0@ == path@);
                    assert(j == i as int);
                    assert(self.cache_view().dom().contains(path@));
                }
                match &self.cache[i].1 {
                    Some(c) => Some(c.clone()),
                    None => None,
                }
            },
            None => None,
        }
    }

    /// Puts a file's content in the cache.
    pub fn store_content(&mut self, path: &str, content: String)
        requires
            old(self).wf(),
        ensures
            final(self).wf(),
            final(self).cache_view() == old(self).cache_view().insert(path@, Some(content@)),
            final(self).include_view() == old(self).include_view(),
            final(self).exclude_view() == old(self).exclude_view(),
            final(self).root_view() == old(self).root_view(),
            final(self).did_open_view() == old(self).did_open_view(),
            final(self).configuration_view() == old(self).configuration_view(),
    {
        self.set_entry(path, Some(content));
    }

    fn set_entry(&mut self, path: &str, value: Option<String>)
        requires
            old(self).wf(),
        ensures
            final(self).wf(),
            final(self).cache_view() == old(self).cache_view().insert(path@, opt_view(value)),
            final(self).include_view() == old(self).include_view(),
            final(self).exclude_view() == old(self).exclude_view(),
            final(self).root_view() == old(self).root_view(),
            final(self).did_open_view() == old(self).did_open_view(),
            final(self).configuration_view() == old(self).configuration_view(),
    {
        let ghost before = self.cache@;
        let ghost v = opt_view(value);
        match self.find_entry(path) {
            Some(i) => {
                self.cache.set(i, (path.to_owned(), value));
                proof {
                    let after = self.cache@;
                    assert(distinct_paths(after)) by {
                        assert forall|a: int, b: int| 0 <= a < b < after.len() implies (#[trigger] after[a]).0@
                            != (#[trigger] after[b]).0@ by {
                            if a != i as int && b != i as int {
                                assert(after[a] == before[a] && after[b] == before[b]);
                            } else if a == i as int {
                                assert(after[b] == before[b]);
                                assert(before[i as int].0@ != before[b].0@);
                            } else {
                                assert(after[a] == before[a]);
                                assert(before[a].0@ != before[i as int].0@);
                            }
                        }
                    }
                    assert(cache_map(after) =~= cache_map(before).insert(path@, v)) by {
                        assert forall|k: Seq<char>| cache_entry(after, k) == (cache_entry(before, k) || k == path@) by {
                            if cache_entry(before, k) {
                                let j = choose|j: int| 0 <= j < before.len() && (#[trigger] before[j]).0@ == k;
                                if j == i as int {
                                    assert(after[j].0@ == k);
                                } else {
                                    assert(after[j] == before[j]);
                                }
                            }
                            if cache_entry(after, k) {
                                let j = choose|j: int| 0 <= j < after.len() && (#[trigger] after[j]).0@ == k;
                                if j != i as int {
                                    assert(after[j] == before[j]);
                                }
                            }
                            if k == path@ {
                                assert(after[i as int].0@ == k);
                            }
                        }
                        assert forall|k: Seq<char>| #[trigger] cache_map(after).dom().contains(k) implies cache_map(after)[k]
                            == cache_map(before).insert(path@, v)[k] by {
                            let j = choose|j: int| 0 <= j < after.len() && (#[trigger] after[j]).0@ == k;
                            if k == path@ {
                                assert(after[i as int].0@ == k);
                                assert(j == i as int);
                            } else {
                                assert(j != i as int);
                                assert(after[j] == before[j]);
                                let j2 = choose|j2: int| 0 <= j2 < before.len() && (#[trigger] before[j2]).0@ == k;
                                assert(before[j].0@ == k);
                                assert(j2 == j);
                            }
                        }
                    }
                }
            },
            None => {
                self.cache.push((path.to_owned(), value));
                proof {
                    let after = self.cache@;
                    let n = before.len();
                    assert(after[n as int].0@ == path@);
                    assert(distinct_paths(after)) by {
                        assert forall|a: int, b: int| 0 <= a < b < after.len() implies (#[trigger] after[a]).0@
                            != (#[trigger] after[b]).0@ by {
                            if b < n {
                                assert(after[a] == before[a] && after[b] == before[b]);
                            } else {
                                assert(after[a] == before[a]);
                                assert(!cache_entry(before, path@));
                            }
                        }
                    }
                    assert(cache_map(after) =~= cache_map(before).insert(path@, v)) by {
                        assert forall|k: Seq<char>| cache_entry(after, k) == (cache_entry(before, k) || k == path@) by {
                            if cache_entry(before, k) {
                                let j = choose|j: int| 0 <= j < before.len() && (#[trigger] before[j]).0@ == k;
                                assert(after[j] == before[j]);
                            }
                            if cache_entry(after, k) {
                                let j = choose|j: int| 0 <= j < after.len() && (#[trigger] after[j]).0@ == k;
                                if j < n {
                                    assert(after[j] == before[j]);
                                }
                            }
                        }
                        assert forall|k: Seq<char>| #[trigger] cache_map(after).dom().contains(k) implies cache_map(after)[k]
                            == cache_map(before).insert(path@, v)[k] by {
                            let j = choose|j: int| 0 <= j < after.len() && (#[trigger] after[j]).0@ == k;
                            if k == path@ {
                                if j < n {
                                    assert(after[j] == before[j]);
                                }
                                assert(j == n);
                            } else {
                                assert(j < n);
                                assert(after[j] == before[j]);
                                let j2 = choose|j2: int| 0 <= j2 < before.len() && (#[trigger] before[j2]).0@ == k;
                                assert(j2 == j);
                            }
                        }
                    }
                }
            },
        }
    }

    /// Reads a file's content from its bytes, decoding invalid UTF-8 with replacement
    /// characters, and puts it in the cache.
    pub fn load_content(&mut self, path: &str, bytes: &Vec<u8>) -> (r: String)
        requires
            old(self).wf(),
        ensures
            final(self).wf(),
            r@ == spec_utf8_lossy(bytes@),
            final(self).cache_view() == old(self).cache_view().insert(path@, Some(r@)),
            final(self).include_view() == old(self).include_view(),
            final(self).exclude_view() == old(self).exclude_view(),
            final(self).root_view() == old(self).root_view(),
            final(self).did_open_view() == old(self).did_open_view(),
            final(self).configuration_view() == old(self).configuration_view(),
    {
        let content = utf8_lossy(bytes.as_slice());
        self.store_content(path, content.clone());
        content
    }

    /// Whether the file list must be searched anew: the cache is empty.
    pub fn needs_scan(&self) -> (r: bool)
        requires
            self.wf(),
        ensures
            r == (self.cache_view() == Map::<Seq<char>, Option<Seq<char>>>::empty()),
    {
        proof {
            if self.cache@.len() > 0 {
                assert(self.cache_view().dom().contains(self.cache@[0].0@));
            } else {
                assert(self.cache_view() =~= Map::<Seq<char>, Option<Seq<char>>>::empty());
            }
        }
        self.cache.len() == 0
    }

    /// Records the files a search found, each with no content yet.
    pub fn fill_cache(&mut self, files: Vec<String>)
        requires
            old(self).wf(),
        ensures
            final(self).wf(),
            final(self).cache_view().dom() == old(self).cache_view().dom().union(string_set(files@)),
            forall|k: Seq<char>|
                #[trigger] final(self).cache_view().dom().contains(k) ==> final(self).cache_view()[k] == if string_set(
                    files@,
                ).contains(k) {
                    None
                } else {
                    old(self).cache_view()[k]
                },
            final(self).include_view() == old(self).include_view(),
            final(self).exclude_view() == old(self).exclude_view(),
            final(self).root_view() == old(self).root_view(),
            final(self).did_open_view() == old(self).did_open_view(),
            final(self).configuration_view() == old(self).configuration_view(),
    {
        let ghost start = self.cache_view();
        let mut i: usize = 0;
        while i < files.len()
            invariant
                i <= files@.len(),
                self.wf(),
                self.cache_view().dom() == start.dom().union(string_set(files@.take(i as int))),
                forall|k: Seq<char>|
                    #[trigger] self.cache_view().dom().contains(k) ==> self.cache_view()[k] == if string_set(
                        files@.take(i as int),
                    ).contains(k) {
                        None
                    } else {
                        start[k]
                    },
                self.include_view() == old(self).include_view(),
                self.exclude_view() == old(self).exclude_view(),
                self.root_view() == old(self).root_view(),
                self.did_open_view() == old(self).did_open_view(),
                self.configuration_view() == old(self).configuration_view(),
            decreases files@.len() - i,
        {
            let ghost prev = files@.take(i as int);
            let ghost next = files@.take(i + 1);
            self.set_entry(files[i].as_str(), None);
            proof {
                assert(next =~= prev.push(files@[i as int]));
                assert forall|s: Seq<char>| string_set(next).contains(s) == (string_set(prev).contains(s) || s
                    == files@[i as int]@) by {
                    if string_set(next).contains(s) {
                        let j = choose|j: int| 0 <= j < next.len() && (#[trigger] next[j])@ == s;
                        if j < prev.len() {
                            assert(prev[j] == next[j]);
                        }
                    }
                    if string_set(prev).contains(s) {
                        let j = choose|j: int| 0 <= j < prev.len() && (#[trigger] prev[j])@ == s;
                        assert(next[j] == prev[j]);
                    }
                    if s == files@[i as int]@ {
                        assert(next[i as int] == files@[i as int]);
                    }
                }
                assert(self.cache_view().dom() =~= start.dom().union(string_set(next)));
            }
            i = i + 1;
        }
        assert(files@.take(files@.len() as int) =~= files@);
    }

    /// The known file paths, each once.
    pub fn cached_files(&self) -> (r: Vec<String>)
        requires
            self.wf(),
        ensures
            string_set(r@) == self.cache_view().dom(),
            distinct_strings(r@),
    {
        let mut r: Vec<String> = Vec::new();
        let mut i: usize = 0;
        while i < self.cache.len()
            invariant
                i <= self.cache@.len(),
                self.wf(),
                r@.len() == i,
                forall|k: int| 0 <= k < i ==> (#[trigger] r@[k])@ == self.cache@[k].0@,
            decreases self.cache@.len() - i,
        {
            r.push(self.cache[i].0.clone());
            i = i + 1;
        }
        proof {
            assert forall|s: Seq<char>| string_set(r@).contains(s) == self.cache_view().dom().contains(s) by {
                if string_set(r@).contains(s) {
                    let j = choose|j: int| 0 <= j < r@.len() && (#[trigger] r@[j])@ == s;
                    assert(self.cache@[j].0@ == s);
                }
                if self.cache_view().dom().contains(s) {
                    let j = choose|j: int| 0 <= j < self.cache@.len() && (#[trigger] self.cache@[j]).0@ == s;
                    assert(r@[j]@ == s);
                }
            }
            assert(string_set(r@) =~= self.cache_view().dom());
            assert forall|a: int, b: int| 0 <= a < b < r@.len() implies (#[trigger] r@[a])@ != (#[trigger] r@[b])@ by {
                assert(self.cache@[a].0@ != self.cache@[b].0@);
            }
        }
        r
    }

    /// Replaces the patterns and empties the cache, so that the files are listed anew.
    pub fn update_patterns(&mut self, include_patterns: Vec<String>, exclude_patterns: Vec<String>)
        requires
            old(self).wf(),
        ensures
            final(self).wf(),
            final(self).include_view() == include_patterns@,
            final(self).exclude_view() == exclude_patterns@,
            final(self).cache_view() == Map::<Seq<char>, Option<Seq<char>>>::empty(),
            final(self).root_view() == old(self).root_view(),
            final(self).did_open_view() == old(self).did_open_view(),
            final(self).configuration_view() == old(self).configuration_view(),
    {
        self.include_patterns = include_patterns;
        self.exclude_patterns = exclude_patterns;
        self.cache = Vec::new();
        assert(self.cache_view() =~= Map::<Seq<char>, Option<Seq<char>>>::empty());
    }

    /// The current include and exclude patterns, with which the workspace's files are
    /// searched.
    pub fn patterns(&self) -> (r: (Vec<String>, Vec<String>))
        ensures
            r.0@.map_values(|p: String| p@) == self.include_view().map_values(|p: String| p@),
            r.1@.map_values(|p: String| p@) == self.exclude_view().map_values(|p: String| p@),
    {
        (copy_strings(&self.include_patterns), copy_strings(&self.exclude_patterns))
    }

    /// How documents are announced to the server.
    pub fn get_did_open_configuration(&self) -> (r: DidOpenConfiguration)
        ensures
            r == self.configuration_view(),
    {
        self.did_open_configuration
    }

    fn contains_uri(&self, uri: &str) -> (r: bool)
        ensures
            r == self.did_open_view().contains(uri@),
    {
        let mut i: usize = 0;
        while i < self.did_open_text_documents.len()
            invariant
                i <= self.did_open_text_documents@.len(),
                forall|k: int| 0 <= k < i ==> (#[trigger] self.did_open_text_documents@[k])@ != uri@,
            decreases self.did_open_text_documents@.len() - i,
        {
            if str_eq(self.did_open_text_documents[i].as_str(), uri) {
                assert(self.did_open_view().contains(uri@));
                return true;
            }
            i = i + 1;
        }
        false
    }

    /// Whether the document at an absolute path has been announced as open.
    pub fn is_did_open_document(&self, file_path: &str) -> (r: bool)
        requires
            spec_file_uri(file_path@) is Some,
        ensures
            r == self.did_open_view().contains(spec_file_uri(file_path@)->0),
    {
        let uri = file_uri(file_path).unwrap();
        self.contains_uri(uri.as_str())
    }

    /// Whether the document has been announced as open; `None` when the path is not an
    /// absolute one, for which no file URI exists.
    pub fn try_is_did_open_document(&self, file_path: &str) -> (r: Option<bool>)
        ensures
            r is None <==> spec_file_uri(file_path@) is None,
            r matches Some(b) ==> b == self.did_open_view().contains(spec_file_uri(file_path@)->0),
    {
        if file_uri(file_path).is_some() {
            Some(self.is_did_open_document(file_path))
        } else {
            None
        }
    }

    /// Records that the document at an absolute path has been announced as open.
    pub fn add_did_open_document(&mut self, file_path: &str)
        requires
            old(self).wf(),
            spec_file_uri(file_path@) is Some,
        ensures
            final(self).wf(),
            final(self).did_open_view() == old(self).did_open_view().insert(spec_file_uri(file_path@)->0),
            final(self).cache_view() == old(self).cache_view(),
            final(self).include_view() == old(self).include_view(),
            final(self).exclude_view() == old(self).exclude_view(),
            final(self).root_view() == old(self).root_view(),
            final(self).configuration_view() == old(self).configuration_view(),
    {
        let uri = file_uri(file_path).unwrap();
        let ghost before = self.did_open_text_documents@;
        if !self.contains_uri(uri.as_str()) {
            self.did_open_text_documents.push(uri);
            proof {
                let after = self.did_open_text_documents@;
                assert forall|a: int, b: int| 0 <= a < b < after.len() implies (#[trigger] after[a])@
                    != (#[trigger] after[b])@ by {
                    assert(after[a] == before[a]);
                    if b < before.len() {
                        assert(after[b] == before[b]);
                    } else {
                        assert(!string_set(before).contains(after[b]@));
                    }
                }
                assert forall|s: Seq<char>| string_set(after).contains(s) == (string_set(before).contains(s) || s
                    == after[before.len() as int]@) by {
                    if string_set(after).contains(s) {
                        let j = choose|j: int| 0 <= j < after.len() && (#[trigger] after[j])@ == s;
                        if j < before.len() {
                            assert(after[j] == before[j]);
                        }
                    }
                    if string_set(before).contains(s) {
                        let j = choose|j: int| 0 <= j < before.len() && (#[trigger] before[j])@ == s;
                        assert(after[j] == before[j]);
                    }
                }
                assert(self.did_open_view() =~= string_set(before).insert(after[before.len() as int]@));
            }
        } else {
            assert(self.did_open_view() =~= string_set(before).insert(uri@));
        }
    }

    /// Records that the document has been announced as open; `false`, with nothing recorded,
    /// when the path is not an absolute one.
    pub fn try_add_did_open_document(&mut self, file_path: &str) -> (r: bool)
        requires
            old(self).wf(),
        ensures
            final(self).wf(),
            r <==> spec_file_uri(file_path@) is Some,
            r ==> final(self).did_open_view() == old(self).did_open_view().insert(spec_file_uri(file_path@)->0),
            !r ==> final(self).did_open_view() == old(self).did_open_view(),
            final(self).cache_view() == old(self).cache_view(),
            final(self).include_view() == old(self).include_view(),
            final(self).exclude_view() == old(self).exclude_view(),
            final(self).root_view() == old(self).root_view(),
            final(self).configuration_view() == old(self).configuration_view(),
    {
        if file_uri(file_path).is_some() {
            self.add_did_open_document(file_path);
            true
        } else {
            false
        }
    }
}

/// The text of a document: the whole content, or the part a range selects.
pub fn read_text_document(content: String, range: &Option<Range>) -> (r: String)
    ensures
        range is None ==> r == content,
        range matches Some(rg) ==> r@ == extract_range_spec(content@, *rg),
{
    match range {
        None => content,
        Some(rg) => extract_range(content.as_str(), rg),
    }
}

/// Reading back what was stored: once a file's content is put in the cache, the cache gives
/// that content for the path.
pub proof fn law_read_after_store(before: WorkspaceDocumentsHandler, after: WorkspaceDocumentsHandler, path: Seq<char>, content: Seq<char>)
    requires
        after.cache_view() == before.cache_view().insert(path, Some(content)),
    ensures
        cached_content_spec(after.cache_view(), path) == Some(content),
{
}

/// Storing a file's content leaves what the cache gives for every other path unchanged.
pub proof fn law_store_leaves_others(before: WorkspaceDocumentsHandler, after: WorkspaceDocumentsHandler, path: Seq<char>, content: Seq<char>, other: Seq<char>)
    requires
        after.cache_view() == before.cache_view().insert(path, Some(content)),
        other != path,
    ensures
        cached_content_spec(after.cache_view(), other) == cached_content_spec(before.cache_view(), other),
{
}

} // verus!
