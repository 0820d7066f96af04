//! The tags that `ctags` writes for the workspace: reading its output into rows of name,
//! kind, language, file and lines.
use vstd::prelude::*;
use crate::auth::strip_all_prefixes;
use crate::compile_commands::occurs_at;
use crate::paths::{absolute_path_to_relative_path_string, relative_path_spec};
use crate::text::{chars_of, lines_of, prefix_bytes, split_lines, string_of, utf8_width, views_of};

verus! {

/// The pieces of `s` between occurrences of `sep`, continuing a piece that holds `cur`; as
/// `str::split` gives them, empty pieces included.
pub open spec fn split_from(s: Seq<char>, sep: char, cur: Seq<char>) -> Seq<Seq<char>>
    decreases s.len(),
{
    if s.len() == 0 {
        seq![cur]
    } else if s[0] == sep {
        seq![cur] + split_from(s.drop_first(), sep, seq![])
    } else {
        split_from(s.drop_first(), sep, cur.push(s[0]))
    }
}

/// The pieces of `s` between occurrences of `sep`.
pub open spec fn split_spec(s: Seq<char>, sep: char) -> Seq<Seq<char>> {
    split_from(s, sep, seq![])
}

/// Splits a text at each occurrence of a separator.
pub fn split_char(s: &Vec<char>, sep: char) -> (r: Vec<Vec<char>>)
    ensures
        views_of(r@) == split_spec(s@, sep),
{
    let mut pieces: Vec<Vec<char>> = Vec::new();
    let mut cur: Vec<char> = Vec::new();
    let mut i: usize = 0;
    assert(s@.skip(0) =~= s@);
    assert(views_of(pieces@) + split_from(s@, sep, cur@) =~= split_from(s@, sep, cur@));
    while i < s.len()
        invariant
            i <= s@.len(),
            views_of(pieces@) + split_from(s@.skip(i as int), sep, cur@) == split_spec(s@, sep),
        decreases s@.len() - i,
    {
        let c = s[i];
        let ghost rest = s@.skip(i as int);
        assert(rest.drop_first() =~= s@.skip(i + 1));
        if c == sep {
            proof {
                assert(views_of(pieces@.push(cur)) =~= views_of(pieces@).push(cur@));
                assert(views_of(pieces@).push(cur@) + split_from(s@.skip(i + 1), sep, seq![]) =~= views_of(pieces@) + (
                seq![cur@] + split_from(s@.skip(i + 1), sep, seq![])));
            }
            pieces.push(cur);
            cur = Vec::new();
            assert(cur@ =~= seq![]);
        } else {
            cur.push(c);
        }
        i = i + 1;
    }
    proof {
        assert(views_of(pieces@.push(cur)) =~= views_of(pieces@).push(cur@));
        assert(views_of(pieces@) + seq![cur@] =~= views_of(pieces@).push(cur@));
    }
    pieces.push(cur);
    pieces
}

/// `s` starts with `p`.
pub open spec fn has_prefix(s: Seq<char>, p: Seq<char>) -> bool {
    s.len() >= p.len() && s.subrange(0, p.len() as int) == p
}

/// `s` ends with `p`.
pub open spec fn has_suffix(s: Seq<char>, p: Seq<char>) -> bool {
    s.len() >= p.len() && s.subrange(s.len() - p.len(), s.len() as int) == p
}

/// The text with every trailing copy of `suffix` taken off.
pub open spec fn strip_all_suffixes(s: Seq<char>, suffix: Seq<char>) -> Seq<char>
    decreases s.len(),
{
    if suffix.len() > 0 && has_suffix(s, suffix) {
        strip_all_suffixes(s.subrange(0, s.len() - suffix.len()), suffix)
    } else {
        s
    }
}

fn has_prefix_at(s: &Vec<char>, start: usize, end: usize, p: &Vec<char>) -> (r: bool)
    requires
        start <= end <= s@.len(),
    ensures
        r == has_prefix(s@.subrange(start as int, end as int), p@),
{
    if end - start < p.len() {
        return false;
    }
    let mut k: usize = 0;
    while k < p.len()
        invariant
            start <= end <= s@.len(),
            p@.len() <= end - start,
            k <= p@.len(),
            forall|t: int| 0 <= t < k ==> s@[start + t] == p@[t],
        decreases p@.len() - k,
    {
        if s[start + k] != p[k] {
            assert(s@.subrange(start as int, end as int).subrange(0, p@.len() as int)[k as int] != p@[k as int]);
            return false;
        }
        k = k + 1;
    }
    assert(s@.subrange(start as int, end as int).subrange(0, p@.len() as int) =~= p@);
    true
}

fn has_suffix_at(s: &Vec<char>, start: usize, end: usize, p: &Vec<char>) -> (r: bool)
    requires
        start <= end <= s@.len(),
    ensures
        r == has_suffix(s@.subrange(start as int, end as int), p@),
{
    if end - start < p.len() {
        return false;
    }
    let base = end - p.len();
    let mut k: usize = 0;
    while k < p.len()
        invariant
            start <= end <= s@.len(),
            p@.len() <= end - start,
            base == end - p@.len(),
            k <= p@.len(),
            forall|t: int| 0 <= t < k ==> s@[base + t] == p@[t],
        decreases p@.len() - k,
    {
        if s[base + k] != p[k] {
            let ghost sub = s@.subrange(start as int, end as int);
            assert(sub.subrange(sub.len() - p@.len(), sub.len() as int)[k as int] != p@[k as int]);
            return false;
        }
        k = k + 1;
    }
    let ghost sub = s@.subrange(start as int, end as int);
    assert(sub.subrange(sub.len() - p@.len(), sub.len() as int) =~= p@);
    true
}

/// Whether `s` starts with `p`.
pub fn has_prefix_exec(s: &Vec<char>, p: &Vec<char>) -> (r: bool)
    ensures
        r == has_prefix(s@, p@),
{
    assert(s@.subrange(0, s@.len() as int) =~= s@);
    has_prefix_at(s, 0, s.len(), p)
}

/// Takes every leading copy of `prefix` and then every trailing copy of `suffix` off `s`.
pub fn trim_matches_both(s: &Vec<char>, prefix: &Vec<char>, suffix: &Vec<char>) -> (r: Vec<char>)
    ensures
        r@ == strip_all_suffixes(strip_all_prefixes(s@, prefix@), suffix@),
{
    let mut start: usize = 0;
    assert(s@.subrange(0, s@.len() as int) =~= s@);
    if prefix.len() > 0 {
        while has_prefix_at(s, start, s.len(), prefix)
            invariant
                start <= s@.len(),
                prefix@.len() > 0,
                strip_all_prefixes(s@, prefix@) == strip_all_prefixes(s@.subrange(start as int, s@.len() as int), prefix@),
            decreases s@.len() - start,
        {
            let ghost rest = s@.subrange(start as int, s@.len() as int);
            assert(rest.subrange(prefix@.len() as int, rest.len() as int) =~= s@.subrange(start + prefix@.len(), s@.len() as int));
            start = start + prefix.len();
        }
    }
    let ghost middle = s@.subrange(start as int, s@.len() as int);
    assert(strip_all_prefixes(s@, prefix@) == middle);
    let mut end: usize = s.len();
    assert(middle.subrange(0, middle.len() as int) =~= middle);
    if suffix.len() > 0 {
        while has_suffix_at(s, start, end, suffix)
            invariant
                start <= end <= s@.len(),
                suffix@.len() > 0,
                middle == s@.subrange(start as int, s@.len() as int),
                strip_all_suffixes(middle, suffix@) == strip_all_suffixes(s@.subrange(start as int, end as int), suffix@),
            decreases end - start,
        {
            let ghost cur = s@.subrange(start as int, end as int);
            assert(cur.subrange(0, cur.len() - suffix@.len()) =~= s@.subrange(start as int, end - suffix@.len()));
            end = end - suffix.len();
        }
    }
    let mut r: Vec<char> = Vec::new();
    let mut i: usize = start;
    while i < end
        invariant
            start <= i <= end <= s@.len(),
            r@ == s@.subrange(start as int, i as int),
        decreases end - i,
    {
        r.push(s[i]);
        assert(s@.subrange(start as int, i + 1) =~= s@.subrange(start as int, i as int).push(s@[i as int]));
        i = i + 1;
    }
    r
}

/// The value of a decimal digit character.
pub open spec fn digit_value(c: char) -> nat {
    ((c as u32) - ('0' as u32)) as nat
}

/// The number a string of decimal digits denotes.
pub open spec fn digits_value(s: Seq<char>) -> nat
    decreases s.len(),
{
    if s.len() == 0 {
        0
    } else {
        digits_value(s.drop_last()) * 10 + digit_value(s.last())
    }
}

/// Every character is a decimal digit.
pub open spec fn all_digits(s: Seq<char>) -> bool {
    forall|i: int| 0 <= i < s.len() ==> '0' <= #[trigger] s[i] && s[i] <= '9'
}

/// What `u32::from_str` gives: an optional `+`, then at least one digit, for a value that
/// fits.
pub open spec fn parse_u32_spec(s: Seq<char>) -> Option<u32> {
    let body = if s.len() > 0 && s[0] == '+' {
        s.drop_first()
    } else {
        s
    };
    if body.len() > 0 && all_digits(body) && digits_value(body) <= u32::MAX {
        Some(digits_value(body) as u32)
    } else {
        None
    }
}

proof fn lemma_digits_grow(s: Seq<char>, k: int)
    requires
        0 <= k <= s.len(),
    ensures
        digits_value(s.take(k)) <= digits_value(s),
    decreases s.len() - k,
{
    if k < s.len() {
        lemma_digits_grow(s, k + 1);
        assert(s.take(k + 1).drop_last() =~= s.take(k));
    } else {
        assert(s.take(k) =~= s);
    }
}

/// Parses a decimal `u32`.
pub fn parse_u32(s: &Vec<char>) -> (r: Option<u32>)
    ensures
        r == parse_u32_spec(s@),
{
    let mut i: usize = 0;
    if s.len() > 0 && s[0] == '+' {
        i = 1;
    }
    let ghost body = if s@.len() > 0 && s@[0] == '+' {
        s@.drop_first()
    } else {
        s@
    };
    assert(body =~= s@.skip(i as int));
    if i == s.len() {
        return None;
    }
    let mut acc: u64 = 0;
    let mut k: usize = i;
    while k < s.len()
        invariant
            i <= k <= s@.len(),
            i < s@.len(),
            body == s@.skip(i as int),
            body == (if s@.len() > 0 && s@[0] == '+' {
                s@.drop_first()
            } else {
                s@
            }),
            all_digits(s@.subrange(i as int, k as int)),
            acc == digits_value(s@.subrange(i as int, k as int)),
            acc <= u32::MAX,
        decreases s@.len() - k,
    {
        let c = s[k];
        let ghost pre = s@.subrange(i as int, k as int);
        let ghost next = s@.subrange(i as int, k + 1);
        assert(next.drop_last() =~= pre);
        assert(next.last() == c);
        assert(body.take(k + 1 - i) =~= next);
        if c < '0' || c > '9' {
            assert(!all_digits(body)) by {
                assert(body[k - i] == c);
            }
            return None;
        }
        let d = (c as u32 - '0' as u32) as u64;
        let v = acc * 10 + d;
        if v > u32::MAX as u64 {
            proof {
                lemma_digits_grow(body, k + 1 - i);
            }
            return None;
        }
        acc = v;
        k = k + 1;
    }
    assert(s@.subrange(i as int, s@.len() as int) =~= body);
    Some(acc as u32)
}

/// The first position at which `pat` occurs in `s`, if any.
pub open spec fn first_occurrence(s: Seq<char>, pat: Seq<char>) -> Option<int> {
    if exists|i: int| occurs_at(s, pat, i) {
        Some(choose|i: int| occurs_at(s, pat, i) && forall|j: int| 0 <= j < i ==> !occurs_at(s, pat, j))
    } else {
        None
    }
}

fn occurs_at_vec(s: &Vec<char>, pat: &Vec<char>, i: usize) -> (r: bool)
    requires
        i + pat.len() <= s.len(),
    ensures
        r == occurs_at(s@, pat@, i as int),
{
    let mut k: usize = 0;
    while k < pat.len()
        invariant
            k <= pat@.len(),
            i + pat.len() <= s.len(),
            forall|t: int| 0 <= t < k ==> s@[i + t] == pat@[t],
        decreases pat@.len() - k,
    {
        if s[i + k] != pat[k] {
            assert(s@.subrange(i as int, i + pat@.len())[k as int] != pat@[k as int]);
            return false;
        }
        k = k + 1;
    }
    assert(s@.subrange(i as int, i + pat@.len()) =~= pat@);
    true
}

/// The byte offset of the first occurrence of `pat` in `s`, as `str::find` gives it.
pub fn find_byte_offset(s: &Vec<char>, pat: &Vec<char>) -> (r: Option<u128>)
    ensures
        match first_occurrence(s@, pat@) {
            Some(k) => (r matches Some(off) && off == prefix_bytes(s@, k)),
            None => r is None,
        },
{
    if pat.len() > s.len() {
        assert forall|j: int| !occurs_at(s@, pat@, j) by {}
        return None;
    }
    let last = s.len() - pat.len();
    let mut i: usize = 0;
    let mut off: u128 = 0;
    loop
        invariant
            pat@.len() <= s@.len(),
            last == s.len() - pat.len(),
            i <= last,
            off == prefix_bytes(s@, i as int),
            off <= 4 * i,
            forall|j: int| 0 <= j < i ==> !occurs_at(s@, pat@, j),
        ensures
            forall|j: int| 0 <= j <= last ==> !occurs_at(s@, pat@, j),
        decreases last - i,
    {
        if occurs_at_vec(s, pat, i) {
            proof {
                let k = choose|k: int| occurs_at(s@, pat@, k) && forall|j: int| 0 <= j < k ==> !occurs_at(s@, pat@, j);
                assert(occurs_at(s@, pat@, i as int));
                if k < i {
                } else if k > i {
                    assert(!occurs_at(s@, pat@, i as int));
                }
                assert(k == i);
            }
            return Some(off);
        }
        if i == last {
            break;
        }
        let c = s[i];
        let code: u32 = c as u32;
        let w: u128 = if code < 0x80 {
            1
        } else if code < 0x800 {
            2
        } else if code < 0x10000 {
            3
        } else {
            4
        };
        assert(w == utf8_width(s@[i as int]));
        off = off + w;
        i = i + 1;
    }
    assert forall|j: int| !occurs_at(s@, pat@, j) by {
        if 0 <= j && j <= last {
        }
    }
    None
}

/// The value of the first field of the parts that starts with `key`, with the key taken
/// off (as often as it repeats).
pub open spec fn field_value(parts: Seq<Seq<char>>, key: Seq<char>) -> Option<Seq<char>> {
    if exists|i: int| 0 <= i < parts.len() && has_prefix(parts[i], key) {
        let i = choose|i: int|
            0 <= i < parts.len() && has_prefix(parts[i], key) && forall|j: int| 0 <= j < i ==> !has_prefix(parts[j], key);
        Some(strip_all_prefixes(parts[i], key))
    } else {
        None
    }
}

fn find_field(parts: &Vec<Vec<char>>, key: &Vec<char>) -> (r: Option<Vec<char>>)
    requires
        key@.len() > 0,
    ensures
        match field_value(views_of(parts@), key@) {
            Some(v) => r matches Some(x) && x@ == v,
            None => r is None,
        },
{
    let ghost ps = views_of(parts@);
    let mut i: usize = 0;
    while i < parts.len()
        invariant
            i <= parts@.len(),
            ps == views_of(parts@),
            forall|j: int| 0 <= j < i ==> !has_prefix(ps[j], key@),
        decreases parts@.len() - i,
    {
        let p = &parts[i];
        assert(ps[i as int] == p@);
        assert(p@.subrange(0, p@.len() as int) =~= p@);
        if has_prefix_at(p, 0, p.len(), key) {
            proof {
                let k = choose|k: int|
                    0 <= k < ps.len() && has_prefix(ps[k], key@) && forall|j: int| 0 <= j < k ==> !has_prefix(ps[j], key@);
                assert(has_prefix(ps[i as int], key@));
                if k > i {
                    assert(!has_prefix(ps[i as int], key@));
                }
                assert(k == i);
            }
            let empty: Vec<char> = Vec::new();
            let v = trim_matches_both(p, key, &empty);
            proof {
                let t = strip_all_prefixes(p@, key@);
                assert(!has_suffix(t, empty@) || empty@.len() == 0);
                assert(strip_all_suffixes(t, empty@) == t);
            }
            return Some(v);
        }
        i = i + 1;
    }
    None
}

/// A tag: name, kind, language, file (relative to the mount directory), start line,
/// start character (a byte offset) and end line.
pub type TagTuple = (Seq<char>, Seq<char>, Seq<char>, Seq<char>, u32, u32, u32);

/// The start line a tag line gives: the `line:` field less one, or zero without one.
pub open spec fn tag_start_line(parts: Seq<Seq<char>>) -> int {
    match field_value(parts, "line:"@) {
        Some(v) => match parse_u32_spec(v) {
            Some(n) => n - 1,
            None => 0,
        },
        None => 0,
    }
}

/// A tag line can be read: it has a fourth field (the kind), and a `line:` field does not
/// give line zero.
pub open spec fn tag_line_readable(parts: Seq<Seq<char>>) -> bool {
    parts.len() >= 4 && tag_start_line(parts) >= 0
}

/// The tag a line of `ctags` output gives.
pub open spec fn tag_of(parts: Seq<Seq<char>>, mount_dir: Seq<char>) -> TagTuple {
    let name = parts[0];
    let content = strip_all_suffixes(strip_all_prefixes(parts[2], "/^"@), "$/"@);
    let start_line = tag_start_line(parts) as u32;
    let start_character: u32 = match first_occurrence(content, name) {
        Some(k) => prefix_bytes(content, k) as u32,
        None => 0,
    };
    let end_line: u32 = match field_value(parts, "end:"@) {
        Some(v) => match parse_u32_spec(v) {
            Some(e) => e,
            None => (start_line + 1) as u32,
        },
        None => (start_line + 1) as u32,
    };
    (
        name,
        parts[3],
        match field_value(parts, "language:"@) {
            Some(l) => l,
            None => "unknown"@,
        },
        relative_path_spec(parts[1], mount_dir),
        start_line,
        start_character,
        end_line,
    )
}

/// A line of `ctags` output holds a tag: it is no comment (`!`) and has at least three
/// tab-separated fields.
pub open spec fn is_tag_line(line: Seq<char>) -> bool {
    !(line.len() > 0 && line[0] == '!') && split_spec(line, '\t').len() >= 3
}

/// The tags of the lines, in order.
pub open spec fn tags_of_lines(lines: Seq<Seq<char>>, mount_dir: Seq<char>) -> Seq<TagTuple>
    decreases lines.len(),
{
    if lines.len() == 0 {
        seq![]
    } else if is_tag_line(lines.last()) {
        tags_of_lines(lines.drop_last(), mount_dir).push(tag_of(split_spec(lines.last(), '\t'), mount_dir))
    } else {
        tags_of_lines(lines.drop_last(), mount_dir)
    }
}

/// Every tag line of the output can be read.
pub open spec fn tags_readable(ctags: Seq<char>) -> bool {
    forall|i: int|
        0 <= i < lines_of(ctags).len() && is_tag_line(#[trigger] lines_of(ctags)[i]) ==> tag_line_readable(
            split_spec(lines_of(ctags)[i], '\t'),
        )
}

/// The tags, column by column.
#[derive(Debug)]
pub struct TagColumns {
    pub names: Vec<String>,
    pub kinds: Vec<String>,
    pub languages: Vec<String>,
    pub files: Vec<String>,
    pub start_lines: Vec<u32>,
    pub start_characters: Vec<u32>,
    pub end_lines: Vec<u32>,
}

/// The columns hold the tags, row by row.
pub open spec fn columns_hold(c: TagColumns, tags: Seq<TagTuple>) -> bool {
    &&& c.names@.len() == tags.len() && c.kinds@.len() == tags.len() && c.languages@.len() == tags.len()
    &&& c.files@.len() == tags.len() && c.start_lines@.len() == tags.len()
    &&& c.start_characters@.len() == tags.len() && c.end_lines@.len() == tags.len()
    &&& forall|i: int|
        0 <= i < tags.len() ==> (#[trigger] tags[i]) == (
            c.names@[i]@,
            c.kinds@[i]@,
            c.languages@[i]@,
            c.files@[i]@,
            c.start_lines@[i],
            c.start_characters@[i],
            c.end_lines@[i],
        )
}

fn literal_chars(s: &str) -> (r: Vec<char>)
    ensures
        r@ == s@,
{
    chars_of(s)
}

fn tag_start_line_exec(parts: &Vec<Vec<char>>) -> (r: u32)
    requires
        tag_line_readable(views_of(parts@)),
    ensures
        r == tag_start_line(views_of(parts@)),
{
    proof {
        reveal_strlit("line:");
    }
    match find_field(parts, &literal_chars("line:")) {
        Some(v) => match parse_u32(&v) {
            Some(n) => n - 1,
            None => 0,
        },
        None => 0,
    }
}

fn tag_end_line_exec(parts: &Vec<Vec<char>>, start_line: u32) -> (r: u32)
    requires
        start_line < u32::MAX,
    ensures
        r == match field_value(views_of(parts@), "end:"@) {
            Some(v) => match parse_u32_spec(v) {
                Some(e) => e,
                None => (start_line + 1) as u32,
            },
            None => (start_line + 1) as u32,
        },
{
    proof {
        reveal_strlit("end:");
    }
    match find_field(parts, &literal_chars("end:")) {
        Some(v) => match parse_u32(&v) {
            Some(e) => e,
            None => start_line + 1,
        },
        None => start_line + 1,
    }
}

fn tag_language_exec(parts: &Vec<Vec<char>>) -> (r: String)
    ensures
        r@ == match field_value(views_of(parts@), "language:"@) {
            Some(l) => l,
            None => "unknown"@,
        },
{
    proof {
        reveal_strlit("language:");
    }
    match find_field(parts, &literal_chars("language:")) {
        Some(l) => string_of(&l),
        None => "unknown".to_owned(),
    }
}

fn tag_start_character_exec(content: &Vec<char>, name: &Vec<char>) -> (r: u32)
    ensures
        r == match first_occurrence(content@, name@) {
            Some(k) => prefix_bytes(content@, k) as u32,
            None => 0,
        },
{
    match find_byte_offset(content, name) {
        Some(off) => off as u32,
        None => 0,
    }
}

fn parse_tag_line(parts: &Vec<Vec<char>>, mount_dir: &str) -> (r: (String, String, String, String, u32, u32, u32))
    requires
        tag_line_readable(views_of(parts@)),
    ensures
        (r.0@, r.1@, r.2@, r.3@, r.4, r.5, r.6) == tag_of(views_of(parts@), mount_dir@),
{
    let content = trim_matches_both(&parts[2], &literal_chars("/^"), &literal_chars("$/"));
    let start_line = tag_start_line_exec(parts);
    let start_character = tag_start_character_exec(&content, &parts[0]);
    let end_line = tag_end_line_exec(parts, start_line);
    let language = tag_language_exec(parts);
    let file_path = string_of(&parts[1]);
    let file_name = absolute_path_to_relative_path_string(file_path.as_str(), mount_dir);
    assert(views_of(parts@)[0] == parts@[0]@);
    assert(views_of(parts@)[1] == parts@[1]@);
    assert(views_of(parts@)[2] == parts@[2]@);
    assert(views_of(parts@)[3] == parts@[3]@);
    (string_of(&parts[0]), string_of(&parts[3]), language, file_name, start_line, start_character, end_line)
}

/// Whether every tag line of the output can be read.
pub fn tags_well_formed(ctags: &str) -> (r: bool)
    ensures
        r == tags_readable(ctags@),
{
    let content = chars_of(ctags);
    let lines = split_lines(&content);
    let ghost ls = views_of(lines@);
    assert(ls == lines_of(ctags@));
    let mut i: usize = 0;
    while i < lines.len()
        invariant
            i <= lines@.len(),
            ls == views_of(lines@),
            ls == lines_of(ctags@),
            forall|k: int| 0 <= k < i && is_tag_line(#[trigger] ls[k]) ==> tag_line_readable(split_spec(ls[k], '\t')),
        decreases lines@.len() - i,
    {
        let line = &lines[i];
        assert(ls[i as int] == line@);
        let comment = line.len() > 0 && line[0] == '!';
        let parts = split_char(line, '\t');
        if !comment && parts.len() >= 3 {
            if parts.len() < 4 {
                return false;
            }
            proof {
                reveal_strlit("line:");
            }
            match find_field(&parts, &literal_chars("line:")) {
                Some(v) => match parse_u32(&v) {
                    Some(n) => {
                        if n == 0 {
                            return false;
                        }
                    },
                    None => {},
                },
                None => {},
            }
        }
        i = i + 1;
    }
    true
}

/// Reads the tags from `ctags` output, in order: comment lines and lines of fewer than three
/// fields are passed over; files are made relative to the mount directory.
pub fn parse_tags(ctags: &str, mount_dir: &str) -> (r: TagColumns)
    requires
        tags_readable(ctags@),
    ensures
        columns_hold(r, tags_of_lines(lines_of(ctags@), mount_dir@)),
{
    let content = chars_of(ctags);
    let lines = split_lines(&content);
    let ghost ls = views_of(lines@);
    let mut cols = TagColumns {
        names: Vec::new(),
        kinds: Vec::new(),
        languages: Vec::new(),
        files: Vec::new(),
        start_lines: Vec::new(),
        start_characters: Vec::new(),
        end_lines: Vec::new(),
    };
    let mut i: usize = 0;
    while i < lines.len()
        invariant
            i <= lines@.len(),
            ls == views_of(lines@),
            ls == lines_of(ctags@),
            tags_readable(ctags@),
            columns_hold(cols, tags_of_lines(ls.take(i as int), mount_dir@)),
        decreases lines@.len() - i,
    {
        let line = &lines[i];
        assert(ls[i as int] == line@);
        assert(ls.take(i + 1).drop_last() =~= ls.take(i as int));
        assert(ls.take(i + 1).last() == line@);
        let comment = line.len() > 0 && line[0] == '!';
        let parts = split_char(line, '\t');
        if !comment && parts.len() >= 3 {
            assert(is_tag_line(ls[i as int]));
            let ghost before = tags_of_lines(ls.take(i as int), mount_dir@);
            let t = parse_tag_line(&parts, mount_dir);
            cols.names.push(t.0);
            cols.kinds.push(t.1);
            cols.languages.push(t.2);
            cols.files.push(t.3);
            cols.start_lines.push(t.4);
            cols.start_characters.push(t.5);
            cols.end_lines.push(t.6);
            proof {
                let after = tags_of_lines(ls.take(i + 1), mount_dir@);
                assert(after == before.push(tag_of(views_of(parts@), mount_dir@)));
                assert forall|k: int| 0 <= k < after.len() implies (#[trigger] after[k]) == (
                    cols.names@[k]@,
                    cols.kinds@[k]@,
                    cols.languages@[k]@,
                    cols.files@[k]@,
                    cols.start_lines@[k],
                    cols.start_characters@[k],
                    cols.end_lines@[k],
                ) by {
                    if k < before.len() {
                        assert(before[k] == after[k]);
                    }
                }
            }
        }
        i = i + 1;
    }
    assert(ls.take(lines@.len() as int) =~= ls);
    cols
}

/// What `usize::from_str` gives: an optional `+`, then at least one digit, for a value that
/// fits.
pub open spec fn parse_usize_spec(s: Seq<char>) -> Option<usize> {
    let body = if s.len() > 0 && s[0] == '+' {
        s.drop_first()
    } else {
        s
    };
    if body.len() > 0 && all_digits(body) && digits_value(body) <= usize::MAX {
        Some(digits_value(body) as usize)
    } else {
        None
    }
}

/// Parses a decimal `usize`.
pub fn parse_usize(s: &Vec<char>) -> (r: Option<usize>)
    ensures
        r == parse_usize_spec(s@),
{
    let mut i: usize = 0;
    if s.len() > 0 && s[0] == '+' {
        i = 1;
    }
    let ghost body = if s@.len() > 0 && s@[0] == '+' {
        s@.drop_first()
    } else {
        s@
    };
    assert(body =~= s@.skip(i as int));
    if i == s.len() {
        return None;
    }
    let mut acc: usize = 0;
    let mut k: usize = i;
    while k < s.len()
        invariant
            i <= k <= s@.len(),
            i < s@.len(),
            body == s@.skip(i as int),
            body == (if s@.len() > 0 && s@[0] == '+' {
                s@.drop_first()
            } else {
                s@
            }),
            all_digits(s@.subrange(i as int, k as int)),
            acc == digits_value(s@.subrange(i as int, k as int)),
        decreases s@.len() - k,
    {
        let c = s[k];
        let ghost pre = s@.subrange(i as int, k as int);
        let ghost next = s@.subrange(i as int, k + 1);
        assert(next.drop_last() =~= pre);
        assert(next.last() == c);
        assert(body.take(k + 1 - i) =~= next);
        if c < '0' || c > '9' {
            assert(!all_digits(body)) by {
                assert(body[k - i] == c);
            }
            return None;
        }
        let d = (c as u32 - '0' as u32) as usize;
        if acc > (usize::MAX - d) / 10 {
            proof {
                assert(acc * 10 + d > usize::MAX) by (nonlinear_arith)
                    requires
                        acc > (usize::MAX - d) / 10,
                        d <= 9,
                ;
                lemma_digits_grow(body, k + 1 - i);
            }
            return None;
        }
        proof {
            assert(acc * 10 + d <= usize::MAX) by (nonlinear_arith)
                requires
                    acc <= (usize::MAX - d) / 10,
                    d <= 9,
            ;
        }
        acc = acc * 10 + d;
        k = k + 1;
    }
    assert(s@.subrange(i as int, s@.len() as int) =~= body);
    Some(acc)
}

} // verus!
