//! The language-server manager: which language a file belongs to, which servers run,
//! which files the workspace holds, and the errors it reports.
use vstd::prelude::*;
use crate::api_types::{ErrorResponse, SupportedLanguages};
use crate::paths::{opt_view, path_extension, spec_path_extension};
use crate::text::{sort_strings, sorted_strings, str_eq};

verus! {

/// Errors of the manager.
#[derive(Debug, PartialEq, Eq)]
pub enum LspManagerError {
    FileNotFound(String),
    LspClientNotFound(SupportedLanguages),
    InternalError(String),
    UnsupportedFileType(String),
    NotImplemented(String),
}

/// The name of a language as `{:?}` prints it.
pub open spec fn language_debug_spec(lang: SupportedLanguages) -> Seq<char> {
    match lang {
        SupportedLanguages::Python => "Python"@,
        SupportedLanguages::TypeScriptJavaScript => "TypeScriptJavaScript"@,
        SupportedLanguages::Rust => "Rust"@,
        SupportedLanguages::CPP => "CPP"@,
        SupportedLanguages::Java => "Java"@,
        SupportedLanguages::Golang => "Golang"@,
        SupportedLanguages::PHP => "PHP"@,
    }
}

/// The name of a language as `{:?}` prints it.
pub fn language_debug_name(lang: SupportedLanguages) -> (r: String)
    ensures
        r@ == language_debug_spec(lang),
{
    let mut s = String::new();
    match lang {
        SupportedLanguages::Python => s.append("Python"),
        SupportedLanguages::TypeScriptJavaScript => s.append("TypeScriptJavaScript"),
        SupportedLanguages::Rust => s.append("Rust"),
        SupportedLanguages::CPP => s.append("CPP"),
        SupportedLanguages::Java => s.append("Java"),
        SupportedLanguages::Golang => s.append("Golang"),
        SupportedLanguages::PHP => s.append("PHP"),
    }
    s
}

/// The message of an error, as it is displayed.
pub open spec fn error_message_spec(e: LspManagerError) -> Seq<char> {
    match e {
        LspManagerError::FileNotFound(path) => "File '"@ + path@ + "' not found in workspace"@,
        LspManagerError::LspClientNotFound(lang) => "LSP client not found for "@ + language_debug_spec(lang),
        LspManagerError::InternalError(msg) => "Internal error: "@ + msg@,
        LspManagerError::UnsupportedFileType(path) => "Unsupported file type: "@ + path@,
        LspManagerError::NotImplemented(msg) => "Not implemented: "@ + msg@,
    }
}

/// The HTTP status with which an error is answered.
pub open spec fn http_status_spec(e: LspManagerError) -> u16 {
    match e {
        LspManagerError::FileNotFound(_) => 400,
        LspManagerError::LspClientNotFound(_) => 500,
        LspManagerError::InternalError(_) => 500,
        LspManagerError::UnsupportedFileType(_) => 400,
        LspManagerError::NotImplemented(_) => 501,
    }
}

/// The error text with which an error is answered.
pub open spec fn http_error_spec(e: LspManagerError) -> Seq<char> {
    match e {
        LspManagerError::FileNotFound(path) => "File not found: "@ + path@,
        LspManagerError::LspClientNotFound(lang) => "LSP client not found for "@ + language_debug_spec(lang),
        LspManagerError::InternalError(msg) => "Internal error: "@ + msg@,
        LspManagerError::UnsupportedFileType(path) => "Unsupported file type: "@ + path@,
        LspManagerError::NotImplemented(msg) => "Not implemented: "@ + msg@,
    }
}

impl LspManagerError {
    /// The message of the error, as it is displayed.
    pub fn message(&self) -> (r: String)
        ensures
            r@ == error_message_spec(*self),
    {
        let mut s = String::new();
        match self {
            LspManagerError::FileNotFound(path) => {
                s.append("File '");
                s.append(path.as_str());
                s.append("' not found in workspace");
            },
            LspManagerError::LspClientNotFound(lang) => {
                s.append("LSP client not found for ");
                let name = language_debug_name(*lang);
                s.append(name.as_str());
            },
            LspManagerError::InternalError(msg) => {
                s.append("Internal error: ");
                s.append(msg.as_str());
            },
            LspManagerError::UnsupportedFileType(path) => {
                s.append("Unsupported file type: ");
                s.append(path.as_str());
            },
            LspManagerError::NotImplemented(msg) => {
                s.append("Not implemented: ");
                s.append(msg.as_str());
            },
        }
        s
    }

    /// The HTTP status with which the error is answered.
    pub fn http_status(&self) -> (r: u16)
        ensures
            r == http_status_spec(*self),
    {
        match self {
            LspManagerError::FileNotFound(_) => 400,
            LspManagerError::LspClientNotFound(_) => 500,
            LspManagerError::InternalError(_) => 500,
            LspManagerError::UnsupportedFileType(_) => 400,
            LspManagerError::NotImplemented(_) => 501,
        }
    }

    /// The body with which the error is answered.
    pub fn into_http_response(&self) -> (r: (u16, ErrorResponse))
        ensures
            r.0 == http_status_spec(*self),
            r.1.error@ == http_error_spec(*self),
    {
        let mut s = String::new();
        match self {
            LspManagerError::FileNotFound(path) => {
                s.append("File not found: ");
                s.append(path.as_str());
            },
            LspManagerError::LspClientNotFound(lang) => {
                s.append("LSP client not found for ");
                let name = language_debug_name(*lang);
                s.append(name.as_str());
            },
            LspManagerError::InternalError(msg) => {
                s.append("Internal error: ");
                s.append(msg.as_str());
            },
            LspManagerError::UnsupportedFileType(path) => {
                s.append("Unsupported file type: ");
                s.append(path.as_str());
            },
            LspManagerError::NotImplemented(msg) => {
                s.append("Not implemented: ");
                s.append(msg.as_str());
            },
        }
        (self.http_status(), ErrorResponse { error: s })
    }
}

/// The language that files with the given extension are written in.
pub open spec fn language_for_extension(ext: Seq<char>) -> Option<SupportedLanguages> {
    if ext == "py"@ || ext == "pyx"@ || ext == "pyi"@ {
        Some(SupportedLanguages::Python)
    } else if ext == "ts"@ || ext == "tsx"@ || ext == "js"@ || ext == "jsx"@ {
        Some(SupportedLanguages::TypeScriptJavaScript)
    } else if ext == "rs"@ {
        Some(SupportedLanguages::Rust)
    } else if ext == "cpp"@ || ext == "cc"@ || ext == "c"@ || ext == "cxx"@ || ext == "h"@ || ext
        == "hpp"@ || ext == "hxx"@ || ext == "hh"@ {
        Some(SupportedLanguages::CPP)
    } else if ext == "java"@ {
        Some(SupportedLanguages::Java)
    } else if ext == "go"@ {
        Some(SupportedLanguages::Golang)
    } else if ext == "php"@ {
        Some(SupportedLanguages::PHP)
    } else {
        None
    }
}

/// Whether `s` is one of `options`.
fn one_of(s: &str, options: &[&str]) -> (r: bool)
    ensures
        r == exists|i: int| 0 <= i < options@.len() && s@ == (#[trigger] options@[i])@,
{
    let mut i: usize = 0;
    while i < options.len()
        invariant
            i <= options@.len(),
            forall|k: int| 0 <= k < i ==> s@ != (#[trigger] options@[k])@,
        decreases options@.len() - i,
    {
        if str_eq(s, options[i]) {
            return true;
        }
        i = i + 1;
    }
    false
}

/// The language of a file, by the extension of its path.
pub open spec fn detect_language_spec(path: Seq<char>) -> Option<SupportedLanguages> {
    match spec_path_extension(path) {
        Some(ext) => language_for_extension(ext),
        None => None,
    }
}

/// The language of a file, by its extension; `UnsupportedFileType` for a path without an
/// extension or with one that no supported language uses.
pub fn detect_language(file_path: &str) -> (r: Result<SupportedLanguages, LspManagerError>)
    ensures
        match detect_language_spec(file_path@) {
            Some(lang) => r == Ok::<SupportedLanguages, LspManagerError>(lang),
            None => r matches Err(LspManagerError::UnsupportedFileType(p)) && p@ == file_path@,
        },
{
    let ext = match path_extension(file_path) {
        Some(e) => e,
        None => {
            return Err(LspManagerError::UnsupportedFileType(file_path.to_owned()));
        },
    };
    let e = ext.as_str();
    proof {
        reveal_strlit("py");
        reveal_strlit("pyx");
        reveal_strlit("pyi");
        reveal_strlit("ts");
        reveal_strlit("tsx");
        reveal_strlit("js");
        reveal_strlit("jsx");
        reveal_strlit("rs");
        reveal_strlit("cpp");
        reveal_strlit("cc");
        reveal_strlit("c");
        reveal_strlit("cxx");
        reveal_strlit("h");
        reveal_strlit("hpp");
        reveal_strlit("hxx");
        reveal_strlit("hh");
        reveal_strlit("java");
        reveal_strlit("go");
        reveal_strlit("php");
    }
    if str_eq(e, "py") || str_eq(e, "pyx") || str_eq(e, "pyi") {
        Ok(SupportedLanguages::Python)
    } else if str_eq(e, "ts") || str_eq(e, "tsx") || str_eq(e, "js") || str_eq(e, "jsx") {
        Ok(SupportedLanguages::TypeScriptJavaScript)
    } else if str_eq(e, "rs") {
        Ok(SupportedLanguages::Rust)
    } else if str_eq(e, "cpp") || str_eq(e, "cc") || str_eq(e, "c") || str_eq(e, "cxx") || str_eq(
        e,
        "h",
    ) || str_eq(e, "hpp") || str_eq(e, "hxx") || str_eq(e, "hh") {
        Ok(SupportedLanguages::CPP)
    } else if str_eq(e, "java") {
        Ok(SupportedLanguages::Java)
    } else if str_eq(e, "go") {
        Ok(SupportedLanguages::Golang)
    } else if str_eq(e, "php") {
        Ok(SupportedLanguages::PHP)
    } else {
        Err(LspManagerError::UnsupportedFileType(file_path.to_owned()))
    }
}

/// The order in which languages are looked for in a workspace.
pub open spec fn detection_order() -> Seq<SupportedLanguages> {
    seq![
        SupportedLanguages::Python,
        SupportedLanguages::TypeScriptJavaScript,
        SupportedLanguages::Rust,
        SupportedLanguages::CPP,
        SupportedLanguages::Java,
        SupportedLanguages::Golang,
        SupportedLanguages::PHP,
    ]
}

/// The languages in the order in which they are looked for in a workspace.
pub fn languages_in_detection_order() -> (r: Vec<SupportedLanguages>)
    ensures
        r@ == detection_order(),
{
    let r = vec![
        SupportedLanguages::Python,
        SupportedLanguages::TypeScriptJavaScript,
        SupportedLanguages::Rust,
        SupportedLanguages::CPP,
        SupportedLanguages::Java,
        SupportedLanguages::Golang,
        SupportedLanguages::PHP,
    ];
    assert(r@ =~= detection_order());
    r
}

/// The languages to start, from those detected and those running: each detected language
/// that has no running server, in the order detected, at its first occurrence.
pub open spec fn start_order(detected: Seq<SupportedLanguages>, running: Seq<SupportedLanguages>) -> Seq<SupportedLanguages>
    decreases detected.len(),
{
    if detected.len() == 0 {
        seq![]
    } else {
        let before = start_order(detected.drop_last(), running);
        let l = detected.last();
        if before.contains(l) || running.contains(l) {
            before
        } else {
            before.push(l)
        }
    }
}

/// A language is to be started exactly when it is detected and not running.
pub proof fn lemma_start_order_contains(detected: Seq<SupportedLanguages>, running: Seq<SupportedLanguages>, l: SupportedLanguages)
    ensures
        start_order(detected, running).contains(l) <==> (detected.contains(l) && !running.contains(l)),
    decreases detected.len(),
{
    broadcast use vstd::seq_lib::lemma_seq_contains_after_push;

    if detected.len() > 0 {
        lemma_start_order_contains(detected.drop_last(), running, l);
        assert(detected =~= detected.drop_last().push(detected.last()));
    }
}

/// The set of running language servers, one per language at most.
pub struct Manager {
    running: Vec<SupportedLanguages>,
}

impl Manager {
    /// No language appears twice among the running servers.
    pub closed spec fn wf(&self) -> bool {
        forall|i: int, j: int| 0 <= i < j < self.running@.len() ==> self.running@[i] != self.running@[j]
    }

    /// The languages whose servers run.
    pub closed spec fn running_languages(&self) -> Seq<SupportedLanguages> {
        self.running@
    }

    /// A manager with no servers running.
    pub fn new() -> (r: Manager)
        ensures
            r.wf(),
            r.running_languages().len() == 0,
    {
        Manager { running: Vec::new() }
    }

    /// Whether a server for the language runs.
    pub fn get_client(&self, lang: SupportedLanguages) -> (r: bool)
        ensures
            r == self.running_languages().contains(lang),
    {
        let mut i: usize = 0;
        while i < self.running.len()
            invariant
                i <= self.running@.len(),
                forall|k: int| 0 <= k < i ==> self.running@[k] != lang,
            decreases self.running@.len() - i,
        {
            if self.running[i] == lang {
                return true;
            }
            i = i + 1;
        }
        false
    }

    /// Records that a server for the language has been started.
    pub fn register_client(&mut self, lang: SupportedLanguages)
        requires
            old(self).wf(),
        ensures
            final(self).wf(),
            old(self).running_languages().is_prefix_of(final(self).running_languages()),
            final(self).running_languages().contains(lang),
            forall|l: SupportedLanguages|
                #[trigger] final(self).running_languages().contains(l) <==> (old(
                    self,
                ).running_languages().contains(l) || l == lang),
    {
        broadcast use vstd::seq_lib::lemma_seq_contains_after_push;

        if !self.get_client(lang) {
            self.running.push(lang);
            assert(self.running@.last() == lang);
        }
    }

    /// Records that the servers of the languages have been started. After a whole run, the
    /// languages that were to be started for `detected` registered, none of `detected` is
    /// left to start; the servers already running stay as they were.
    pub fn register_clients(&mut self, langs: &Vec<SupportedLanguages>)
        requires
            old(self).wf(),
        ensures
            final(self).wf(),
            old(self).running_languages().is_prefix_of(final(self).running_languages()),
            forall|l: SupportedLanguages|
                #[trigger] final(self).running_languages().contains(l) <==> (old(
                    self,
                ).running_languages().contains(l) || langs@.contains(l)),
            forall|detected: Seq<SupportedLanguages>|
                langs@ == start_order(detected, old(self).running_languages()) ==> #[trigger] start_order(
                    detected,
                    final(self).running_languages(),
                ) == Seq::<SupportedLanguages>::empty(),
    {
        broadcast use vstd::seq_lib::lemma_seq_contains_after_push;

        let ghost before = self.running_languages();
        let mut i: usize = 0;
        while i < langs.len()
            invariant
                i <= langs@.len(),
                self.wf(),
                before.is_prefix_of(self.running_languages()),
                forall|l: SupportedLanguages|
                    #[trigger] self.running_languages().contains(l) <==> (before.contains(l)
                        || langs@.take(i as int).contains(l)),
            decreases langs@.len() - i,
        {
            let ghost mid = self.running_languages();
            self.register_client(langs[i]);
            assert(langs@.take(i + 1) =~= langs@.take(i as int).push(langs@[i as int]));
            assert forall|l: SupportedLanguages|
                #[trigger] self.running_languages().contains(l) <==> (before.contains(l) || langs@.take(
                    i + 1,
                ).contains(l)) by {
                assert(mid.contains(l) <==> (before.contains(l) || langs@.take(i as int).contains(l)));
                vstd::seq_lib::lemma_seq_contains_after_push(langs@.take(i as int), langs@[i as int], l);
                assert(langs@.take(i + 1) == langs@.take(i as int).push(langs@[i as int]));
            }
            assert(before.is_prefix_of(self.running_languages())) by {
                assert(before.len() <= mid.len() <= self.running_languages().len());
                assert forall|k: int| 0 <= k < before.len() implies before[k] == self.running_languages()[k] by {
                    assert(mid[k] == before[k]);
                    assert(self.running_languages()[k] == mid[k]);
                }
            }
            i = i + 1;
        }
        assert(langs@.take(langs@.len() as int) =~= langs@);
        let ghost after = self.running_languages();
        assert forall|detected: Seq<SupportedLanguages>|
            langs@ == start_order(detected, before) implies #[trigger] start_order(detected, after) == Seq::<
            SupportedLanguages,
        >::empty() by {
            law_start_is_idempotent_on(before, after, detected);
        }
    }

    /// The languages whose servers should be started: those among `detected` that have no
    /// running server, in the order given, each once.
    pub fn languages_to_start(&self, detected: &Vec<SupportedLanguages>) -> (r: Vec<SupportedLanguages>)
        ensures
            r@ == start_order(detected@, self.running_languages()),
            forall|l: SupportedLanguages|
                #[trigger] r@.contains(l) <==> (detected@.contains(l) && !self.running_languages().contains(l)),
            forall|i: int, j: int| 0 <= i < j < r@.len() ==> r@[i] != r@[j],
    {
        let mut r: Vec<SupportedLanguages> = Vec::new();
        let mut i: usize = 0;
        while i < detected.len()
            invariant
                i <= detected@.len(),
                r@ == start_order(detected@.take(i as int), self.running_languages()),
                forall|l: SupportedLanguages|
                    #[trigger] r@.contains(l) <==> (detected@.take(i as int).contains(l)
                        && !self.running_languages().contains(l)),
                forall|a: int, b: int| 0 <= a < b < r@.len() ==> r@[a] != r@[b],
            decreases detected@.len() - i,
        {
            let lang = detected[i];
            let mut seen = false;
            let mut k: usize = 0;
            while k < r.len()
                invariant
                    k <= r@.len(),
                    seen == exists|t: int| 0 <= t < k && r@[t] == lang,
                decreases r@.len() - k,
            {
                if r[k] == lang {
                    seen = true;
                }
                k = k + 1;
            }
            assert(seen == r@.contains(lang));
            assert(detected@.take(i + 1) =~= detected@.take(i as int).push(lang));
            assert(detected@.take(i + 1).drop_last() =~= detected@.take(i as int));
            broadcast use vstd::seq_lib::lemma_seq_contains_after_push;
            if !seen && !self.get_client(lang) {
                r.push(lang);
                assert(r@.last() == lang);
            }
            i = i + 1;
        }
        assert(detected@.take(detected@.len() as int) =~= detected@);
        r
    }
}

/// Starting again starts nothing once every language that was to be started runs.
proof fn law_start_is_idempotent_on(before: Seq<SupportedLanguages>, after: Seq<SupportedLanguages>, detected: Seq<SupportedLanguages>)
    requires
        forall|l: SupportedLanguages|
            #[trigger] after.contains(l) <==> (before.contains(l) || start_order(detected, before).contains(l)),
    ensures
        start_order(detected, after) == Seq::<SupportedLanguages>::empty(),
{
    assert forall|i: int| 0 <= i < detected.len() implies after.contains(#[trigger] detected[i]) by {
        lemma_start_order_contains(detected, before, detected[i]);
        assert(detected.contains(detected[i]));
    }
    lemma_start_order_empty(detected, after);
}

/// Nothing is left to start when every detected language runs.
proof fn lemma_start_order_empty(detected: Seq<SupportedLanguages>, running: Seq<SupportedLanguages>)
    requires
        forall|i: int| 0 <= i < detected.len() ==> running.contains(#[trigger] detected[i]),
    ensures
        start_order(detected, running) == Seq::<SupportedLanguages>::empty(),
    decreases detected.len(),
{
    if detected.len() > 0 {
        lemma_start_order_empty(detected.drop_last(), running);
        assert(running.contains(detected[detected.len() - 1]));
    }
}

/// Starting the servers a second time starts none: once every language that was to be
/// started has been registered, none of the detected languages is left to start.
pub proof fn law_start_is_idempotent(before: Manager, after: Manager, detected: Seq<SupportedLanguages>)
    requires
        forall|l: SupportedLanguages|
            #[trigger] after.running_languages().contains(l) <==> (before.running_languages().contains(l)
                || start_order(detected, before.running_languages()).contains(l)),
    ensures
        start_order(detected, after.running_languages()) == Seq::<SupportedLanguages>::empty(),
{
    law_start_is_idempotent_on(before.running_languages(), after.running_languages(), detected);
}

/// The languages among those looked for whose workspace search found files: `found[i]`
/// tells whether files of `detection_order()[i]` were found.
pub fn detect_languages_in_workspace(found: &Vec<bool>) -> (r: Vec<SupportedLanguages>)
    requires
        found@.len() == detection_order().len(),
    ensures
        r@ == detection_order().filter(|l: SupportedLanguages| found@[detection_index(l)]),
{
    let order = languages_in_detection_order();
    let mut r: Vec<SupportedLanguages> = Vec::new();
    let mut i: usize = 0;
    while i < order.len()
        invariant
            i <= order@.len() == found@.len(),
            order@ == detection_order(),
            r@ == detection_order().take(i as int).filter(|l: SupportedLanguages| found@[detection_index(l)]),
        decreases order@.len() - i,
    {
        let ghost f = |l: SupportedLanguages| found@[detection_index(l)];
        proof {
            let t = detection_order().take(i + 1);
            assert(t.drop_last() =~= detection_order().take(i as int));
            reveal_with_fuel(Seq::<_>::filter, 2);
            assert(detection_index(order@[i as int]) == i as int);
        }
        if found[i] {
            r.push(order[i]);
        }
        i = i + 1;
    }
    assert(detection_order().take(order@.len() as int) =~= detection_order());
    r
}

/// The position of a language in the order in which languages are looked for.
pub open spec fn detection_index(l: SupportedLanguages) -> int {
    match l {
        SupportedLanguages::Python => 0,
        SupportedLanguages::TypeScriptJavaScript => 1,
        SupportedLanguages::Rust => 2,
        SupportedLanguages::CPP => 3,
        SupportedLanguages::Java => 4,
        SupportedLanguages::Golang => 5,
        SupportedLanguages::PHP => 6,
    }
}

/// The workspace files reported by all servers, sorted.
pub fn combine_file_lists(lists: Vec<Vec<String>>) -> (r: Vec<String>)
    ensures
        sorted_strings(r@),
        r@.to_multiset() == flatten_lists(lists@).to_multiset(),
{
    let mut all: Vec<String> = Vec::new();
    let mut i: usize = 0;
    while i < lists.len()
        invariant
            i <= lists@.len(),
            all@ == flatten_lists(lists@.take(i as int)),
        decreases lists@.len() - i,
    {
        let mut k: usize = 0;
        let ghost before = all@;
        while k < lists[i].len()
            invariant
                i < lists@.len(),
                k <= lists@[i as int]@.len(),
                all@ == before + lists@[i as int]@.take(k as int),
            decreases lists@[i as int]@.len() - k,
        {
            all.push(lists[i][k].clone());
            assert(lists@[i as int]@.take(k + 1) =~= lists@[i as int]@.take(k as int).push(lists@[i as int]@[k as int]));
            k = k + 1;
        }
        assert(lists@[i as int]@.take(k as int) =~= lists@[i as int]@);
        assert(lists@.take(i + 1).drop_last() =~= lists@.take(i as int));
        i = i + 1;
    }
    assert(lists@.take(lists@.len() as int) =~= lists@);
    sort_strings(all)
}

/// The lists one after another.
pub open spec fn flatten_lists(lists: Seq<Vec<String>>) -> Seq<String>
    decreases lists.len(),
{
    if lists.len() == 0 {
        seq![]
    } else {
        flatten_lists(lists.drop_last()) + lists.last()@
    }
}

/// `Ok` when the file is one of the workspace files, `FileNotFound` otherwise.
pub fn check_workspace_file(files: &Vec<String>, file_path: &str) -> (r: Result<(), LspManagerError>)
    ensures
        r is Ok <==> exists|i: int| 0 <= i < files@.len() && (#[trigger] files@[i])@ == file_path@,
        r matches Err(e) ==> e matches LspManagerError::FileNotFound(p) && p@ == file_path@,
{
    let mut i: usize = 0;
    while i < files.len()
        invariant
            i <= files@.len(),
            forall|k: int| 0 <= k < i ==> (#[trigger] files@[k])@ != file_path@,
        decreases files@.len() - i,
    {
        if str_eq(files[i].as_str(), file_path) {
            return Ok(());
        }
        i = i + 1;
    }
    Err(LspManagerError::FileNotFound(file_path.to_owned()))
}

/// Finding the symbols referenced from a symbol is supported for Python and for
/// TypeScript/JavaScript only; other languages get `NotImplemented`.
pub fn check_referenced_symbols_supported(lang: SupportedLanguages) -> (r: Result<(), LspManagerError>)
    ensures
        r is Ok <==> (lang == SupportedLanguages::Python || lang == SupportedLanguages::TypeScriptJavaScript),
        r matches Err(e) ==> e matches LspManagerError::NotImplemented(m)
            && m@ == "Find referenced symbols is only implemented for Python, TypeScript/JavaScript, and C#"@,
{
    match lang {
        SupportedLanguages::Python | SupportedLanguages::TypeScriptJavaScript => Ok(()),
        _ => {
            let mut m = String::new();
            m.append("Find referenced symbols is only implemented for Python, TypeScript/JavaScript, and C#");
            Err(LspManagerError::NotImplemented(m))
        },
    }
}

/// The error for a language whose server is not running.
pub fn require_client(manager: &Manager, lang: SupportedLanguages) -> (r: Result<(), LspManagerError>)
    ensures
        r is Ok <==> manager.running_languages().contains(lang),
        r matches Err(e) ==> e == LspManagerError::LspClientNotFound(lang),
{
    if manager.get_client(lang) {
        Ok(())
    } else {
        Err(LspManagerError::LspClientNotFound(lang))
    }
}

/// Each language paired with whether its server runs, in the order of the health report.
pub fn health_languages(manager: &Manager) -> (r: Vec<(SupportedLanguages, bool)>)
    ensures
        r@.len() == detection_order().len(),
        forall|i: int|
            0 <= i < r@.len() ==> (#[trigger] r@[i]).0 == detection_order()[i] && r@[i].1
                == manager.running_languages().contains(detection_order()[i]),
{
    let order = languages_in_detection_order();
    let mut r: Vec<(SupportedLanguages, bool)> = Vec::new();
    let mut i: usize = 0;
    while i < order.len()
        invariant
            i <= order@.len(),
            order@ == detection_order(),
            r@.len() == i,
            forall|k: int|
                0 <= k < i ==> (#[trigger] r@[k]).0 == detection_order()[k] && r@[k].1
                    == manager.running_languages().contains(detection_order()[k]),
        decreases order@.len() - i,
    {
        let lang = order[i];
        r.push((lang, manager.get_client(lang)));
        i = i + 1;
    }
    r
}

/// How a request on a workspace file is resolved: `FileNotFound` when the file is not one
/// of the workspace files; an internal error when the language of its full path cannot be
/// told; `LspClientNotFound` when no server runs for that language; otherwise the language
/// and the full path.
pub open spec fn resolve_request_spec(running: Seq<SupportedLanguages>, files: Seq<String>, file_path: Seq<char>, mount_dir: Seq<char>, r: Result<(SupportedLanguages, String), LspManagerError>) -> bool {
    let full = crate::paths::spec_join_path(mount_dir, file_path);
    if !crate::text::strings_contain(files, file_path) {
        r matches Err(LspManagerError::FileNotFound(p)) && p@ == file_path
    } else {
        match detect_language_spec(full) {
            None => r matches Err(LspManagerError::InternalError(m)) && m@ == "Language detection failed: Unsupported file type: "@
                + full,
            Some(lang) => if running.contains(lang) {
                r matches Ok(t) && t.0 == lang && t.1@ == full
            } else {
                r == Err::<(SupportedLanguages, String), LspManagerError>(LspManagerError::LspClientNotFound(lang))
            },
        }
    }
}

/// Resolves a request on a workspace file to the language whose server answers it and the
/// file's full path.
pub fn resolve_request(manager: &Manager, workspace_files: &Vec<String>, file_path: &str, mount_dir: &str) -> (r: Result<(SupportedLanguages, String), LspManagerError>)
    ensures
        resolve_request_spec(manager.running_languages(), workspace_files@, file_path@, mount_dir@, r),
{
    if !crate::text::contains_string(workspace_files, file_path) {
        return Err(LspManagerError::FileNotFound(file_path.to_owned()));
    }
    let full = crate::paths::full_path(mount_dir, file_path);
    let lang = match detect_language(full.as_str()) {
        Ok(l) => l,
        Err(e) => {
            let mut m = String::new();
            m.append("Language detection failed: ");
            let msg = e.message();
            m.append(msg.as_str());
            assert(m@ =~= "Language detection failed: Unsupported file type: "@ + full@) by {
                reveal_strlit("Language detection failed: ");
                reveal_strlit("Unsupported file type: ");
                reveal_strlit("Language detection failed: Unsupported file type: ");
            }
            return Err(LspManagerError::InternalError(m));
        },
    };
    if !manager.get_client(lang) {
        return Err(LspManagerError::LspClientNotFound(lang));
    }
    Ok((lang, full))
}

/// The paths made relative to the mount directory, in order.
pub fn relative_paths(paths: &Vec<String>, mount_dir: &str) -> (r: Vec<String>)
    ensures
        r@.len() == paths@.len(),
        forall|i: int|
            0 <= i < r@.len() ==> (#[trigger] r@[i])@ == crate::paths::relative_path_spec(paths@[i]@, mount_dir@),
{
    let mut r: Vec<String> = Vec::new();
    let mut i: usize = 0;
    while i < paths.len()
        invariant
            i <= paths@.len(),
            r@.len() == i,
            forall|k: int|
                0 <= k < i ==> (#[trigger] r@[k])@ == crate::paths::relative_path_spec(paths@[k]@, mount_dir@),
        decreases paths@.len() - i,
    {
        r.push(crate::paths::absolute_path_to_relative_path_string(paths[i].as_str(), mount_dir));
        i = i + 1;
    }
    r
}

/// The files of the workspace, relative to the mount directory, from the lists of absolute
/// paths that the servers keep: all of them, sorted.
pub fn list_files(lists: &Vec<Vec<String>>, mount_dir: &str) -> (r: Vec<String>)
    ensures
        sorted_strings(r@),
        exists|rel: Seq<Vec<String>>|
            rel.len() == lists@.len() && (forall|i: int|
                0 <= i < rel.len() ==> (#[trigger] rel[i])@.len() == lists@[i]@.len() && forall|j: int|
                    0 <= j < rel[i]@.len() ==> (#[trigger] rel[i]@[j])@ == crate::paths::relative_path_spec(
                        lists@[i]@[j]@,
                        mount_dir@,
                    )) && r@.to_multiset() == flatten_lists(rel).to_multiset(),
{
    let mut rel: Vec<Vec<String>> = Vec::new();
    let mut i: usize = 0;
    while i < lists.len()
        invariant
            i <= lists@.len(),
            rel@.len() == i,
            forall|k: int|
                0 <= k < i ==> (#[trigger] rel@[k])@.len() == lists@[k]@.len() && forall|j: int|
                    0 <= j < rel@[k]@.len() ==> (#[trigger] rel@[k]@[j])@ == crate::paths::relative_path_spec(
                        lists@[k]@[j]@,
                        mount_dir@,
                    ),
        decreases lists@.len() - i,
    {
        rel.push(relative_paths(&lists[i], mount_dir));
        i = i + 1;
    }
    let ghost rs = rel@;
    combine_file_lists(rel)
}

/// The health report: status `ok`, the version, and whether the server of each language
/// runs.
pub fn health_check(manager: &Manager, version: &str) -> (r: crate::api_types::HealthResponse)
    ensures
        r.status@ == "ok"@,
        r.version@ == version@,
        r.languages@.len() == detection_order().len(),
        forall|i: int|
            0 <= i < r.languages@.len() ==> (#[trigger] r.languages@[i]).0 == detection_order()[i] && r.languages@[i].1
                == manager.running_languages().contains(detection_order()[i]),
{
    crate::api_types::HealthResponse {
        status: "ok".to_owned(),
        version: version.to_owned(),
        languages: health_languages(manager),
    }
}

} // verus!
