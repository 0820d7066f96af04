//! A compilation database for C and C++ projects that have none: the compiler flags read
//! from `CMakeLists.txt` files, the directories to search for headers, and one compile
//! command per source file.
use vstd::prelude::*;
use crate::paths::opt_view;
use crate::text::{chars_of, string_of};

verus! {

/// The characters with the Unicode `White_Space` property.
pub open spec fn is_white_space(c: char) -> bool {
    let u = c as u32;
    (0x09 <= u && u <= 0x0d) || u == 0x20 || u == 0x85 || u == 0xa0 || u == 0x1680 || (0x2000 <= u && u <= 0x200a)
        || u == 0x2028 || u == 0x2029 || u == 0x202f || u == 0x205f || u == 0x3000
}

pub fn is_white_space_exec(c: char) -> (r: bool)
    ensures
        r == is_white_space(c),
{
    let u = c as u32;
    (0x09 <= u && u <= 0x0d) || u == 0x20 || u == 0x85 || u == 0xa0 || u == 0x1680 || (0x2000 <= u && u <= 0x200a)
        || u == 0x2028 || u == 0x2029 || u == 0x202f || u == 0x205f || u == 0x3000
}

/// The words of `s` continuing a word that already holds `cur`: maximal runs of characters
/// that are not white space.
pub open spec fn words_from(s: Seq<char>, cur: Seq<char>) -> Seq<Seq<char>>
    decreases s.len(),
{
    if s.len() == 0 {
        if cur.len() == 0 {
            seq![]
        } else {
            seq![cur]
        }
    } else if is_white_space(s[0]) {
        (if cur.len() == 0 {
            seq![]
        } else {
            seq![cur]
        }) + words_from(s.drop_first(), seq![])
    } else {
        words_from(s.drop_first(), cur.push(s[0]))
    }
}

/// The words of a text, as `str::split_whitespace` gives them.
pub open spec fn words_of(s: Seq<char>) -> Seq<Seq<char>> {
    words_from(s, seq![])
}

/// Splits a text into its words.
pub fn split_whitespace(text: &str) -> (r: Vec<String>)
    ensures
        r@.map_values(|w: String| w@) == words_of(text@),
{
    let content = chars_of(text);
    let ghost s = content@;
    let mut words: Vec<String> = Vec::new();
    let mut cur: Vec<char> = Vec::new();
    let mut i: usize = 0;
    assert(s.skip(0) =~= s);
    assert(words@.map_values(|w: String| w@) + words_from(s, cur@) =~= words_from(s, cur@));
    while i < content.len()
        invariant
            i <= content@.len(),
            content@ == s,
            words@.map_values(|w: String| w@) + words_from(s.skip(i as int), cur@) == words_of(s),
        decreases content@.len() - i,
    {
        let c = content[i];
        let ghost rest = s.skip(i as int);
        let ghost before = words@.map_values(|w: String| w@);
        assert(rest.drop_first() =~= s.skip(i + 1));
        assert(rest[0] == c);
        if is_white_space_exec(c) {
            if cur.len() > 0 {
                let w = string_of(&cur);
                words.push(w);
                proof {
                    assert(words@.map_values(|w: String| w@) =~= before.push(cur@));
                    assert(before.push(cur@) + words_from(s.skip(i + 1), seq![]) =~= before + (seq![cur@]
                        + words_from(s.skip(i + 1), seq![])));
                }
            } else {
                assert(Seq::<Seq<char>>::empty() + words_from(s.skip(i + 1), seq![]) =~= words_from(
                    s.skip(i + 1),
                    seq![],
                ));
            }
            cur = Vec::new();
            assert(cur@ =~= seq![]);
        } else {
            cur.push(c);
        }
        i = i + 1;
    }
    if cur.len() > 0 {
        let ghost before = words@.map_values(|w: String| w@);
        let w = string_of(&cur);
        words.push(w);
        assert(words@.map_values(|w: String| w@) =~= before + seq![cur@]);
    } else {
        assert(words@.map_values(|w: String| w@) + seq![] =~= words@.map_values(|w: String| w@));
    }
    words
}

/// `pat` occurs in `s` at position `i`.
pub open spec fn occurs_at(s: Seq<char>, pat: Seq<char>, i: int) -> bool {
    0 <= i && i + pat.len() <= s.len() && s.subrange(i, i + pat.len()) == pat
}

/// `pat` occurs somewhere in `s`.
pub open spec fn occurs_in(s: Seq<char>, pat: Seq<char>) -> bool {
    exists|i: int| occurs_at(s, pat, i)
}

fn occurs_at_exec(s: &Vec<char>, pat: &Vec<char>, i: usize) -> (r: bool)
    requires
        i + pat.len() <= s.len(),
    ensures
        r == occurs_at(s@, pat@, i as int),
{
    let mut k: usize = 0;
    while k < pat.len()
        invariant
            k <= pat@.len(),
            i + pat.len() <= s.len(),
            forall|t: int| 0 <= t < k ==> s@[i + t] == pat@[t],
        decreases pat@.len() - k,
    {
        if s[i + k] != pat[k] {
            assert(s@.subrange(i as int, i + pat@.len())[k as int] != pat@[k as int]);
            return false;
        }
        k = k + 1;
    }
    assert(s@.subrange(i as int, i + pat@.len()) =~= pat@);
    true
}

/// Whether `pat` occurs in `s`.
pub fn contains_str(s: &str, pat: &str) -> (r: bool)
    ensures
        r == occurs_in(s@, pat@),
{
    let sv = chars_of(s);
    let pv = chars_of(pat);
    if pv.len() > sv.len() {
        return false;
    }
    let last = sv.len() - pv.len();
    let mut i: usize = 0;
    loop
        invariant
            sv@ == s@,
            pv@ == pat@,
            pv.len() <= sv.len(),
            last == sv.len() - pv.len(),
            i <= last,
            forall|j: int| 0 <= j < i ==> !occurs_at(s@, pat@, j),
        ensures
            forall|j: int| 0 <= j <= last ==> !occurs_at(s@, pat@, j),
        decreases last - i,
    {
        if occurs_at_exec(&sv, &pv, i) {
            return true;
        }
        if i == last {
            break;
        }
        i = i + 1;
    }
    assert forall|j: int| !occurs_at(s@, pat@, j) by {
        if 0 <= j && j <= last {
        }
    }
    false
}

/// The view of a first-group result.
pub open spec fn first_group_view(r: Option<Option<Option<String>>>) -> Option<Option<Option<Seq<char>>>> {
    match r {
        None => None,
        Some(None) => Some(None),
        Some(Some(g)) => Some(Some(opt_view(g))),
    }
}

/// The view of an all-groups result.
pub open spec fn all_groups_view(r: Option<Vec<Option<String>>>) -> Option<Seq<Option<Seq<char>>>> {
    match r {
        None => None,
        Some(v) => Some(v@.map_values(|o: Option<String>| opt_view(o))),
    }
}

/// What `regex::Regex::new(pattern)` and `Regex::captures(text)` give for the first match:
/// `None` when the pattern does not compile; otherwise whether there is a match, and the text
/// of its first group when that group took part.
pub uninterp spec fn spec_regex_first_group(pattern: Seq<char>, text: Seq<char>) -> Option<Option<Option<Seq<char>>>>;

/// Compiles the pattern with `regex::Regex::new` and gives the first group of its first
/// match in the text. Claimed: the result is a function of the pattern and the text alone.
#[verifier::external_body]
fn regex_first_group(pattern: &str, text: &str) -> (r: Option<Option<Option<String>>>)
    ensures
        first_group_view(r) == spec_regex_first_group(pattern@, text@),
{
    match regex::Regex::new(pattern) {
        Ok(re) => Some(re.captures(text).map(|c| c.get(1).map(|m| m.as_str().to_string()))),
        Err(_) => None,
    }
}

/// What `regex::Regex::new(pattern)` and `Regex::captures_iter(text)` give: `None` when the
/// pattern does not compile; otherwise, for each match in turn, the text of its first group
/// when that group took part.
pub uninterp spec fn spec_regex_all_groups(pattern: Seq<char>, text: Seq<char>) -> Option<Seq<Option<Seq<char>>>>;

/// Compiles the pattern with `regex::Regex::new` and gives the first group of each of its
/// matches in the text. Claimed: the result is a function of the pattern and the text alone.
#[verifier::external_body]
fn regex_all_groups(pattern: &str, text: &str) -> (r: Option<Vec<Option<String>>>)
    ensures
        all_groups_view(r) == spec_regex_all_groups(pattern@, text@),
{
    match regex::Regex::new(pattern) {
        Ok(re) => Some(re.captures_iter(text).map(|c| c.get(1).map(|m| m.as_str().to_string())).collect()),
        Err(_) => None,
    }
}

/// The pattern of a `set(CMAKE_CXX_STANDARD n)` line, with the number as first group.
pub open spec fn cxx_standard_pattern() -> Seq<char> {
    "set\\s*\\(\\s*CMAKE_CXX_STANDARD\\s+(\\d+)\\s*\\)"@
}

/// The pattern of an `add_compile_options(...)` call, with its arguments as first group.
pub open spec fn compile_options_pattern() -> Seq<char> {
    "add_compile_options\\s*\\((.*?)\\)"@
}

/// A word is a literal flag: it holds no variable `${` and no generator expression `$<`.
pub open spec fn literal_flag(w: Seq<char>) -> bool {
    !occurs_in(w, "${"@) && !occurs_in(w, "$<"@)
}

/// The literal flags among words, in order.
pub open spec fn literal_flags(ws: Seq<Seq<char>>) -> Seq<Seq<char>>
    decreases ws.len(),
{
    if ws.len() == 0 {
        seq![]
    } else if literal_flag(ws.last()) {
        literal_flags(ws.drop_last()).push(ws.last())
    } else {
        literal_flags(ws.drop_last())
    }
}

/// The flags of the compile-option arguments of the matches, in order; `None` when a match
/// has no arguments group.
pub open spec fn option_flags(groups: Seq<Option<Seq<char>>>) -> Option<Seq<Seq<char>>>
    decreases groups.len(),
{
    if groups.len() == 0 {
        Some(seq![])
    } else {
        match (option_flags(groups.drop_last()), groups.last()) {
            (Some(f), Some(g)) => Some(f + literal_flags(words_of(g))),
            _ => None,
        }
    }
}

/// The standard flag from the search for `set(CMAKE_CXX_STANDARD n)`: `-std=c++n` when it
/// matched, nothing when it did not; `None` when the pattern did not compile or the match
/// has no number.
pub open spec fn std_flag_from(std: Option<Option<Option<Seq<char>>>>) -> Option<Seq<Seq<char>>> {
    match std {
        None => None,
        Some(None) => Some(seq![]),
        Some(Some(None)) => None,
        Some(Some(Some(n))) => Some(seq!["-std=c++"@ + n]),
    }
}

/// The flags a file gives, from the standard search and the compile-option matches: the
/// standard flag, then the literal compile options; `None` where either search gives none.
pub open spec fn flags_from_groups(std: Option<Option<Option<Seq<char>>>>, opts: Option<Seq<Option<Seq<char>>>>) -> Option<Seq<Seq<char>>> {
    match (std_flag_from(std), opts) {
        (Some(a), Some(groups)) => match option_flags(groups) {
            Some(b) => Some(a + b),
            None => None,
        },
        _ => None,
    }
}

/// The flags one `CMakeLists.txt` gives: `-std=c++n` for a standard it sets, then the literal
/// compile options; `None` where a group the flags are read from is missing.
pub open spec fn cmake_file_flags(content: Seq<char>) -> Option<Seq<Seq<char>>> {
    flags_from_groups(
        spec_regex_first_group(cxx_standard_pattern(), content),
        spec_regex_all_groups(compile_options_pattern(), content),
    )
}

/// The flags of several `CMakeLists.txt` files, one file after another.
pub open spec fn cmake_flags(contents: Seq<String>) -> Option<Seq<Seq<char>>>
    decreases contents.len(),
{
    if contents.len() == 0 {
        Some(seq![])
    } else {
        match (cmake_flags(contents.drop_last()), cmake_file_flags(contents.last()@)) {
            (Some(a), Some(b)) => Some(a + b),
            _ => None,
        }
    }
}

proof fn lemma_cmake_none_extends(s: Seq<String>, k: int, m: int)
    requires
        0 <= k <= m <= s.len(),
        cmake_flags(s.take(k)) is None,
    ensures
        cmake_flags(s.take(m)) is None,
    decreases m - k,
{
    if m > k {
        lemma_cmake_none_extends(s, k, m - 1);
        assert(s.take(m).drop_last() =~= s.take(m - 1));
    }
}

proof fn lemma_option_none_extends(g: Seq<Option<Seq<char>>>, k: int, m: int)
    requires
        0 <= k <= m <= g.len(),
        option_flags(g.take(k)) is None,
    ensures
        option_flags(g.take(m)) is None,
    decreases m - k,
{
    if m > k {
        lemma_option_none_extends(g, k, m - 1);
        assert(g.take(m).drop_last() =~= g.take(m - 1));
    }
}

fn push_literal_flags(flags: &mut Vec<String>, args: &str)
    ensures
        final(flags)@.map_values(|w: String| w@) == old(flags)@.map_values(|w: String| w@) + literal_flags(
            words_of(args@),
        ),
{
    let words = split_whitespace(args);
    let ghost ws = words_of(args@);
    let ghost start = flags@.map_values(|w: String| w@);
    let mut i: usize = 0;
    while i < words.len()
        invariant
            i <= words@.len(),
            words@.map_values(|w: String| w@) == ws,
            flags@.map_values(|w: String| w@) == start + literal_flags(ws.take(i as int)),
        decreases words@.len() - i,
    {
        let ghost before = flags@.map_values(|w: String| w@);
        assert(ws.take(i + 1).drop_last() =~= ws.take(i as int));
        assert(ws.take(i + 1).last() == words@[i as int]@);
        let w = &words[i];
        if !contains_str(w.as_str(), "${") && !contains_str(w.as_str(), "$<") {
            flags.push(w.clone());
            assert(flags@.map_values(|w: String| w@) =~= before.push(words@[i as int]@));
        }
        i = i + 1;
    }
    assert(ws.take(words@.len() as int) =~= ws);
}

/// The flags of one `CMakeLists.txt`, from what its two searches gave: `std` for the
/// standard (`None` when the pattern did not compile; otherwise the first match, if any, and
/// its number group) and `opts` for the compile options (the argument group of each match).
pub fn cmake_file_flags_from(std: Option<Option<Option<String>>>, opts: Option<Vec<Option<String>>>) -> (r: Option<Vec<String>>)
    ensures
        match (r, flags_from_groups(first_group_view(std), all_groups_view(opts))) {
            (Some(v), Some(f)) => v@.map_values(|w: String| w@) == f,
            (None, None) => true,
            _ => false,
        },
{
    let mut flags: Vec<String> = Vec::new();
    match std {
        None => {
            return None;
        },
        Some(None) => {},
        Some(Some(None)) => {
            return None;
        },
        Some(Some(Some(n))) => {
            let mut f = String::new();
            f.append("-std=c++");
            f.append(n.as_str());
            flags.push(f);
        },
    }
    let ghost after_std = flags@.map_values(|w: String| w@);
    assert(std_flag_from(first_group_view(std)) == Some(after_std));
    match opts {
        None => {
            return None;
        },
        Some(groups) => {
            let ghost gs = groups@.map_values(|o: Option<String>| opt_view(o));
            assert(all_groups_view(opts) == Some(gs));
            let mut k: usize = 0;
            assert(gs.take(0) =~= seq![]);
            assert(after_std + seq![] =~= after_std);
            while k < groups.len()
                invariant
                    k <= groups@.len(),
                    all_groups_view(opts) == Some(gs),
                    std_flag_from(first_group_view(std)) == Some(after_std),
                    gs == groups@.map_values(|o: Option<String>| opt_view(o)),
                    option_flags(gs.take(k as int)) matches Some(fl) && flags@.map_values(|w: String| w@) == after_std
                        + fl,
                decreases groups@.len() - k,
            {
                assert(gs.take(k + 1).drop_last() =~= gs.take(k as int));
                assert(gs.take(k + 1).last() == opt_view(groups@[k as int]));
                match &groups[k] {
                    None => {
                        proof {
                            lemma_option_none_extends(gs, k + 1, gs.len() as int);
                            assert(gs.take(gs.len() as int) =~= gs);
                        }
                        return None;
                    },
                    Some(args) => {
                        let ghost fl = option_flags(gs.take(k as int))->0;
                        push_literal_flags(&mut flags, args.as_str());
                        assert(after_std + fl + literal_flags(words_of(args@)) =~= after_std + (fl + literal_flags(
                            words_of(args@),
                        )));
                    },
                }
                k = k + 1;
            }
            assert(gs.take(groups@.len() as int) =~= gs);
        },
    }
    Some(flags)
}

/// The compiler flags that `CMakeLists.txt` files give: for each file, in turn, `-std=c++n`
/// when it sets the C++ standard, then the literal flags of its compile options. `None`
/// where a pattern group the flags are read from is missing.
pub fn parse_cmakelists(contents: &Vec<String>) -> (r: Option<Vec<String>>)
    ensures
        match (r, cmake_flags(contents@)) {
            (Some(v), Some(f)) => v@.map_values(|w: String| w@) == f,
            (None, None) => true,
            _ => false,
        },
{
    proof {
        reveal_strlit("set\\s*\\(\\s*CMAKE_CXX_STANDARD\\s+(\\d+)\\s*\\)");
        reveal_strlit("add_compile_options\\s*\\((.*?)\\)");
    }
    let mut flags: Vec<String> = Vec::new();
    let mut j: usize = 0;
    assert(flags@.map_values(|w: String| w@) =~= seq![]);
    while j < contents.len()
        invariant
            j <= contents@.len(),
            cmake_flags(contents@.take(j as int)) == Some(flags@.map_values(|w: String| w@)),
        decreases contents@.len() - j,
    {
        let ghost before = flags@.map_values(|w: String| w@);
        let ghost next = contents@.take(j + 1);
        assert(next.drop_last() =~= contents@.take(j as int));
        assert(next.last() == contents@[j as int]);
        let content = contents[j].as_str();
        let std = regex_first_group("set\\s*\\(\\s*CMAKE_CXX_STANDARD\\s+(\\d+)\\s*\\)", content);
        let opts = regex_all_groups("add_compile_options\\s*\\((.*?)\\)", content);
        match cmake_file_flags_from(std, opts) {
            None => {
                proof {
                    lemma_cmake_none_extends(contents@, j + 1, contents@.len() as int);
                    assert(contents@.take(contents@.len() as int) =~= contents@);
                }
                return None;
            },
            Some(more) => {
                let ghost m = more@.map_values(|w: String| w@);
                let mut t: usize = 0;
                while t < more.len()
                    invariant
                        t <= more@.len(),
                        m == more@.map_values(|w: String| w@),
                        flags@.map_values(|w: String| w@) == before + m.take(t as int),
                    decreases more@.len() - t,
                {
                    let ghost fb = flags@.map_values(|w: String| w@);
                    let w = more[t].clone();
                    assert(w@ == m[t as int]);
                    flags.push(w);
                    assert(flags@.map_values(|w: String| w@) =~= fb.push(m[t as int]));
                    assert(m.take(t + 1) =~= m.take(t as int).push(m[t as int]));
                    assert(flags@.map_values(|w: String| w@) =~= before + m.take(t + 1));
                    t = t + 1;
                }
                assert(m.take(more@.len() as int) =~= m);
            },
        }
        j = j + 1;
    }
    assert(contents@.take(contents@.len() as int) =~= contents@);
    Some(flags)
}

/// A directory found by the search for include directories, and whether it is one.
pub open spec fn include_dir_candidates(found: Seq<(String, bool)>) -> Set<Seq<char>> {
    Set::new(|d: Seq<char>| exists|i: int| 0 <= i < found.len() && (#[trigger] found[i]).1 && found[i].0@ == d)
}

/// The directories that hold the `CMakeLists.txt` files.
pub open spec fn cmake_dirs(cmakelists_files: Seq<String>) -> Set<Seq<char>> {
    Set::new(
        |d: Seq<char>|
            exists|i: int| 0 <= i < cmakelists_files.len() && crate::paths::spec_path_parent((#[trigger] cmakelists_files[i])@) == Some(d),
    )
}

fn push_unique(v: &mut Vec<String>, s: String)
    requires
        crate::documents::distinct_strings(old(v)@),
    ensures
        crate::documents::distinct_strings(final(v)@),
        crate::documents::string_set(final(v)@) == crate::documents::string_set(old(v)@).insert(s@),
{
    let ghost before = v@;
    if !crate::text::contains_string(v, s.as_str()) {
        v.push(s);
        proof {
            let after = v@;
            assert forall|a: int, b: int| 0 <= a < b < after.len() implies (#[trigger] after[a])@ != (#[trigger] after[b])@ by {
                assert(after[a] == before[a]);
                if b < before.len() {
                    assert(after[b] == before[b]);
                }
            }
            assert forall|t: Seq<char>| crate::documents::string_set(after).contains(t) == (crate::documents::string_set(
                before,
            ).contains(t) || t == after[before.len() as int]@) by {
                if crate::documents::string_set(after).contains(t) {
                    let j = choose|j: int| 0 <= j < after.len() && (#[trigger] after[j])@ == t;
                    if j < before.len() {
                        assert(after[j] == before[j]);
                    }
                }
                if crate::documents::string_set(before).contains(t) {
                    let j = choose|j: int| 0 <= j < before.len() && (#[trigger] before[j])@ == t;
                    assert(after[j] == before[j]);
                }
            }
            assert(crate::documents::string_set(after) =~= crate::documents::string_set(before).insert(s@));
        }
    } else {
        assert(crate::documents::string_set(before) =~= crate::documents::string_set(before).insert(s@));
    }
}

/// The directories to search for headers, each once: the directories the search found
/// (those that are directories), and the directories of the `CMakeLists.txt` files.
pub fn find_include_dirs(found: &Vec<(String, bool)>, cmakelists_files: &Vec<String>) -> (r: Vec<String>)
    ensures
        crate::documents::distinct_strings(r@),
        crate::documents::string_set(r@) == include_dir_candidates(found@).union(cmake_dirs(cmakelists_files@)),
{
    let mut r: Vec<String> = Vec::new();
    let mut i: usize = 0;
    assert(crate::documents::string_set(r@) =~= Set::<Seq<char>>::empty());
    while i < found.len()
        invariant
            i <= found@.len(),
            crate::documents::distinct_strings(r@),
            crate::documents::string_set(r@) == include_dir_candidates(found@.take(i as int)),
        decreases found@.len() - i,
    {
        let ghost before = crate::documents::string_set(r@);
        if found[i].1 {
            push_unique(&mut r, found[i].0.clone());
        }
        proof {
            let next = found@.take(i + 1);
            assert forall|d: Seq<char>| include_dir_candidates(next).contains(d) == (include_dir_candidates(
                found@.take(i as int),
            ).contains(d) || (found@[i as int].1 && found@[i as int].0@ == d)) by {
                if include_dir_candidates(next).contains(d) {
                    let j = choose|j: int| 0 <= j < next.len() && (#[trigger] next[j]).1 && next[j].0@ == d;
                    if j < i {
                        assert(found@.take(i as int)[j] == next[j]);
                    }
                }
                if include_dir_candidates(found@.take(i as int)).contains(d) {
                    let j = choose|j: int| 0 <= j < i && (#[trigger] found@.take(i as int)[j]).1 && found@.take(i as int)[j].0@ == d;
                    assert(next[j] == found@.take(i as int)[j]);
                }
                if found@[i as int].1 && found@[i as int].0@ == d {
                    assert(next[i as int] == found@[i as int]);
                }
            }
            assert(crate::documents::string_set(r@) =~= include_dir_candidates(next));
        }
        i = i + 1;
    }
    assert(found@.take(found@.len() as int) =~= found@);
    let mut k: usize = 0;
    assert(cmake_dirs(cmakelists_files@.take(0)) =~= Set::<Seq<char>>::empty());
    assert(crate::documents::string_set(r@) =~= include_dir_candidates(found@).union(cmake_dirs(cmakelists_files@.take(0))));
    while k < cmakelists_files.len()
        invariant
            k <= cmakelists_files@.len(),
            crate::documents::distinct_strings(r@),
            crate::documents::string_set(r@) == include_dir_candidates(found@).union(cmake_dirs(cmakelists_files@.take(k as int))),
        decreases cmakelists_files@.len() - k,
    {
        let parent = crate::paths::path_parent(cmakelists_files[k].as_str());
        let ghost pv = opt_view(parent);
        match parent {
            Some(p) => push_unique(&mut r, p),
            None => {},
        }
        proof {
            let prev = cmakelists_files@.take(k as int);
            let next = cmakelists_files@.take(k + 1);
            assert forall|d: Seq<char>| cmake_dirs(next).contains(d) == (cmake_dirs(prev).contains(d) || pv == Some(d)) by {
                if cmake_dirs(next).contains(d) {
                    let j = choose|j: int| 0 <= j < next.len() && crate::paths::spec_path_parent((#[trigger] next[j])@) == Some(d);
                    if j < k {
                        assert(prev[j] == next[j]);
                    }
                }
                if cmake_dirs(prev).contains(d) {
                    let j = choose|j: int| 0 <= j < prev.len() && crate::paths::spec_path_parent((#[trigger] prev[j])@) == Some(d);
                    assert(next[j] == prev[j]);
                }
                if pv == Some(d) {
                    assert(next[k as int] == cmakelists_files@[k as int]);
                }
            }
            assert(crate::documents::string_set(r@) =~= include_dir_candidates(found@).union(cmake_dirs(next)));
        }
        k = k + 1;
    }
    assert(cmakelists_files@.take(cmakelists_files@.len() as int) =~= cmakelists_files@);
    r
}

/// The patterns of C and C++ source files.
pub fn source_file_patterns() -> (r: Vec<String>)
    ensures
        r@.map_values(|s: String| s@) == seq!["**/*.cpp"@, "**/*.cc"@, "**/*.cxx"@, "**/*.c"@],
{
    let mut r: Vec<String> = Vec::new();
    r.push("**/*.cpp".to_owned());
    r.push("**/*.cc".to_owned());
    r.push("**/*.cxx".to_owned());
    r.push("**/*.c".to_owned());
    assert(r@.map_values(|s: String| s@) =~= seq!["**/*.cpp"@, "**/*.cc"@, "**/*.cxx"@, "**/*.c"@]);
    r
}

/// The source files a search found; none when the search failed.
pub fn find_source_files(search_result: Result<Vec<String>, String>) -> (r: Vec<String>)
    ensures
        match search_result {
            Ok(files) => r == files,
            Err(_) => r@.len() == 0,
        },
{
    match search_result {
        Ok(files) => files,
        Err(_) => Vec::new(),
    }
}

/// A compile command of the database.
#[derive(Debug, PartialEq, Eq)]
pub struct CompileCommand {
    pub directory: String,
    pub command: String,
    pub file: String,
}

/// The parts joined with the separator between them.
pub open spec fn join_spec(parts: Seq<Seq<char>>, sep: Seq<char>) -> Seq<char>
    decreases parts.len(),
{
    if parts.len() == 0 {
        seq![]
    } else if parts.len() == 1 {
        parts[0]
    } else {
        join_spec(parts.drop_last(), sep) + sep + parts.last()
    }
}

/// The command that compiles one source file: the compiler, the include flags, the other
/// flags and the file, separated by spaces.
pub open spec fn compile_command_spec(include_dirs: Seq<String>, flags: Seq<String>, file: Seq<char>) -> Seq<char> {
    "/usr/bin/c++ "@ + join_spec(include_dirs.map_values(|d: String| "-I"@ + d@), " "@) + " "@ + join_spec(
        flags.map_values(|f: String| f@),
        " "@,
    ) + " -c "@ + file
}

fn join_strings(parts: &Vec<String>, prefix: &str) -> (r: String)
    ensures
        r@ == join_spec(parts@.map_values(|p: String| prefix@ + p@), " "@),
{
    let mut r = String::new();
    let ghost all = parts@.map_values(|p: String| prefix@ + p@);
    let mut i: usize = 0;
    while i < parts.len()
        invariant
            i <= parts@.len(),
            all == parts@.map_values(|p: String| prefix@ + p@),
            r@ == join_spec(all.take(i as int), " "@),
        decreases parts@.len() - i,
    {
        let ghost before = r@;
        if i > 0 {
            r.append(" ");
        }
        r.append(prefix);
        r.append(parts[i].as_str());
        proof {
            let next = all.take(i + 1);
            assert(next.drop_last() =~= all.take(i as int));
            assert(next.last() == prefix@ + parts@[i as int]@);
            if i == 0 {
                assert(r@ =~= next[0]);
            } else {
                assert(r@ =~= before + " "@ + next.last());
            }
        }
        i = i + 1;
    }
    assert(all.take(parts@.len() as int) =~= all);
    r
}

/// The compile command of each source file, run from the project root.
pub fn generate_compile_commands(project_root: &str, flags: &Vec<String>, include_dirs: &Vec<String>, source_files: &Vec<String>) -> (r: Vec<CompileCommand>)
    ensures
        r@.len() == source_files@.len(),
        forall|i: int|
            0 <= i < r@.len() ==> (#[trigger] r@[i]).directory@ == project_root@ && r@[i].file@ == source_files@[i]@
                && r@[i].command@ == compile_command_spec(include_dirs@, flags@, source_files@[i]@),
{
    let include_part = join_strings(include_dirs, "-I");
    let flag_part = join_strings(flags, "");
    proof {
        reveal_strlit("");
        assert(flags@.map_values(|p: String| ""@ + p@) =~= flags@.map_values(|f: String| f@)) by {
            assert forall|t: int| 0 <= t < flags@.len() implies ""@ + flags@[t]@ == flags@[t]@ by {
                assert(""@ + flags@[t]@ =~= flags@[t]@);
            }
        }
    }
    let mut r: Vec<CompileCommand> = Vec::new();
    let mut i: usize = 0;
    while i < source_files.len()
        invariant
            i <= source_files@.len(),
            include_part@ == join_spec(include_dirs@.map_values(|d: String| "-I"@ + d@), " "@),
            flag_part@ == join_spec(flags@.map_values(|f: String| f@), " "@),
            r@.len() == i,
            forall|t: int|
                0 <= t < i ==> (#[trigger] r@[t]).directory@ == project_root@ && r@[t].file@ == source_files@[t]@
                    && r@[t].command@ == compile_command_spec(include_dirs@, flags@, source_files@[t]@),
        decreases source_files@.len() - i,
    {
        let mut command = String::new();
        command.append("/usr/bin/c++ ");
        command.append(include_part.as_str());
        command.append(" ");
        command.append(flag_part.as_str());
        command.append(" -c ");
        command.append(source_files[i].as_str());
        assert(command@ =~= compile_command_spec(include_dirs@, flags@, source_files@[i as int]@));
        r.push(CompileCommand { directory: project_root.to_owned(), command, file: source_files[i].clone() });
        i = i + 1;
    }
    r
}

} // verus!
