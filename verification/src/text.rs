//! Text handling: splitting a document into lines, cutting lines at character offsets, and
//! extracting the text that a range covers.
use vstd::prelude::*;
use crate::api_types::{Position, Range};
use vstd::std_specs::iter::IteratorSpec;

verus! {

/// `String::push` appends one character.
pub assume_specification[ String::push ](s: &mut String, ch: char)
    ensures
        final(s)@ == old(s)@.push(ch),
;

/// The characters of a string, in order.
pub fn chars_of(s: &str) -> (v: Vec<char>)
    ensures
        v@ == s@,
{
    broadcast use vstd::string::axiom_spec_iter, vstd::string::next_postcondition;

    let mut v: Vec<char> = Vec::new();
    let mut it = s.chars();
    let ghost total = s@;
    loop
        invariant
            total == s@,
            v@.len() <= total.len(),
            it.remaining() == total.skip(v@.len() as int),
            v@ == total.take(v@.len() as int),
            it.decrease() is Some,
        ensures
            v@ == total,
        decreases it.decrease()->0,
    {
        match it.next() {
            Some(c) => {
                assert(total.take(v@.len() as int + 1) =~= total.take(v@.len() as int).push(c));
                v.push(c);
                assert(it.remaining() =~= total.skip(v@.len() as int));
            },
            None => {
                assert(v@.len() == total.len());
                assert(total.take(total.len() as int) =~= total);
                break;
            },
        }
    }
    v
}

/// A string made of the given characters.
pub fn string_of(v: &Vec<char>) -> (s: String)
    ensures
        s@ == v@,
{
    let mut s = String::new();
    let mut i: usize = 0;
    while i < v.len()
        invariant
            i <= v.len(),
            s@ == v@.take(i as int),
        decreases v.len() - i,
    {
        s.push(v[i]);
        assert(v@.take(i + 1) =~= v@.take(i as int).push(v@[i as int]));
        i = i + 1;
    }
    assert(v@.take(v.len() as int) =~= v@);
    s
}

/// A line without the carriage return that ended it.
pub open spec fn strip_cr(line: Seq<char>) -> Seq<char> {
    if line.len() > 0 && line.last() == '\r' {
        line.drop_last()
    } else {
        line
    }
}

/// The lines of `s`, continuing a line that already holds `cur`: a line ends at `\n`
/// (with a `\r` just before it dropped as well); a last line without `\n` is kept
/// unless it is empty.
pub open spec fn lines_from(s: Seq<char>, cur: Seq<char>) -> Seq<Seq<char>>
    decreases s.len(),
{
    if s.len() == 0 {
        if cur.len() == 0 {
            seq![]
        } else {
            seq![cur]
        }
    } else if s[0] == '\n' {
        seq![strip_cr(cur)] + lines_from(s.drop_first(), seq![])
    } else {
        lines_from(s.drop_first(), cur.push(s[0]))
    }
}

/// The lines of a text.
pub open spec fn lines_of(s: Seq<char>) -> Seq<Seq<char>> {
    lines_from(s, seq![])
}

/// The views of a list of lines.
pub open spec fn views_of(v: Seq<Vec<char>>) -> Seq<Seq<char>> {
    v.map_values(|l: Vec<char>| l@)
}

/// Splits a text into its lines.
pub fn split_lines(content: &Vec<char>) -> (lines: Vec<Vec<char>>)
    ensures
        views_of(lines@) == lines_of(content@),
{
    let mut lines: Vec<Vec<char>> = Vec::new();
    let mut cur: Vec<char> = Vec::new();
    let mut i: usize = 0;
    assert(content@.skip(0) =~= content@);
    assert(views_of(lines@) =~= seq![]);
    assert(views_of(lines@) + lines_from(content@, cur@) =~= lines_from(content@, cur@));
    while i < content.len()
        invariant
            i <= content.len(),
            views_of(lines@) + lines_from(content@.skip(i as int), cur@) == lines_of(content@),
        decreases content.len() - i,
    {
        let c = content[i];
        let ghost rest = content@.skip(i as int);
        assert(rest.drop_first() =~= content@.skip(i + 1));
        if c == '\n' {
            let mut line = cur;
            if line.len() > 0 && line[line.len() - 1] == '\r' {
                line.pop();
            }
            assert(line@ == strip_cr(cur@));
            proof {
                assert(views_of(lines@.push(line)) =~= views_of(lines@).push(line@));
                assert(seq![strip_cr(cur@)] + lines_from(content@.skip(i + 1), seq![]) =~= lines_from(
                    rest,
                    cur@,
                ));
                assert(views_of(lines@).push(line@) + lines_from(content@.skip(i + 1), seq![])
                    =~= views_of(lines@) + (seq![strip_cr(cur@)] + lines_from(content@.skip(i + 1), seq![])));
            }
            lines.push(line);
            cur = Vec::new();
            assert(cur@ =~= seq![]);
        } else {
            cur.push(c);
        }
        i = i + 1;
    }
    if cur.len() > 0 {
        proof {
            assert(views_of(lines@.push(cur)) =~= views_of(lines@).push(cur@));
            assert(views_of(lines@) + seq![cur@] =~= views_of(lines@).push(cur@));
        }
        lines.push(cur);
    } else {
        assert(views_of(lines@) + seq![] =~= views_of(lines@));
    }
    lines
}

/// The number of bytes that the UTF-8 encoding of a character takes.
pub open spec fn utf8_width(c: char) -> nat {
    if (c as u32) < 0x80 {
        1
    } else if (c as u32) < 0x800 {
        2
    } else if (c as u32) < 0x10000 {
        3
    } else {
        4
    }
}

/// The number of bytes that the first `k` characters of `s` take in UTF-8.
pub open spec fn prefix_bytes(s: Seq<char>, k: int) -> nat
    decreases k,
{
    if k <= 0 {
        0
    } else {
        prefix_bytes(s, k - 1) + utf8_width(s[k - 1])
    }
}

/// Byte offset `b` lies between two characters of `s` (or at either end).
pub open spec fn is_byte_boundary(s: Seq<char>, b: int) -> bool {
    exists|k: int| 0 <= k <= s.len() && prefix_bytes(s, k) == b
}

/// The smaller of two integers.
pub open spec fn min_int(a: int, b: int) -> int {
    if a <= b {
        a
    } else {
        b
    }
}

/// The characters `a..b` of a line, or nothing when `a` comes after `b`.
pub open spec fn char_slice(line: Seq<char>, a: int, b: int) -> Seq<char> {
    if a <= b {
        line.subrange(a, b)
    } else {
        seq![]
    }
}

/// The part of line `i` of a range that is extracted: the first and the last line are
/// cut at the range's character offsets, each offset clamped to the line's length; the
/// lines between are kept whole.
pub open spec fn line_piece(line: Seq<char>, i: int, last: int, start_char: int, end_char: int) -> Seq<char> {
    let n = line.len() as int;
    let a = min_int(start_char, n);
    let b = min_int(end_char, n);
    if i == 0 && last == 0 {
        char_slice(line, a, b)
    } else if i == 0 {
        line.subrange(a, n)
    } else if i == last {
        line.subrange(0, b)
    } else {
        line
    }
}

/// Lines joined with `\n` between them.
pub open spec fn join_lines(parts: Seq<Seq<char>>) -> Seq<char>
    decreases parts.len(),
{
    if parts.len() == 0 {
        seq![]
    } else if parts.len() == 1 {
        parts[0]
    } else {
        join_lines(parts.drop_last()) + seq!['\n'] + parts.last()
    }
}

/// The index of the last line that a range reaches: its end line, or the last line of
/// the text when the end line lies beyond it.
pub open spec fn clamped_end_line(total: int, end_line: int) -> int {
    if end_line >= total {
        total - 1
    } else {
        end_line
    }
}

/// The text that a range covers: nothing for an empty text or a range that starts after
/// the (clamped) end line; otherwise the covered lines joined with `\n`, the first and last
/// cut at the range's character offsets.
pub open spec fn extract_range_spec(content: Seq<char>, range: Range) -> Seq<char> {
    let lines = lines_of(content);
    let total = lines.len() as int;
    let s = range.start.line as int;
    let e = clamped_end_line(total, range.end.line as int);
    if total == 0 || s > e {
        seq![]
    } else {
        join_lines(
            Seq::new(
                (e - s + 1) as nat,
                |i: int|
                    line_piece(
                        lines[s + i],
                        i,
                        e - s,
                        range.start.character as int,
                        range.end.character as int,
                    ),
            ),
        )
    }
}

/// The pieces of a text between its `\n` characters, as `str::split('\n')` gives them: one
/// more piece than there are `\n`.
pub open spec fn split_newlines(t: Seq<char>) -> Seq<Seq<char>>
    decreases t.len(),
{
    if t.len() == 0 {
        seq![seq![]]
    } else {
        let before = split_newlines(t.drop_last());
        if t.last() == '\n' {
            before.push(seq![])
        } else {
            before.update(before.len() - 1, before.last().push(t.last()))
        }
    }
}

/// A text without a `\n`.
pub open spec fn no_newline(t: Seq<char>) -> bool {
    forall|i: int| 0 <= i < t.len() ==> t[i] != '\n'
}

proof fn lemma_split_newlines_len(t: Seq<char>)
    ensures
        split_newlines(t).len() >= 1,
    decreases t.len(),
{
    if t.len() > 0 {
        lemma_split_newlines_len(t.drop_last());
    }
}

/// A text without `\n` is a single piece.
proof fn lemma_split_single(b: Seq<char>)
    requires
        no_newline(b),
    ensures
        split_newlines(b) == seq![b],
    decreases b.len(),
{
    if b.len() > 0 {
        lemma_split_single(b.drop_last());
        assert(b.drop_last().push(b.last()) =~= b);
        assert(seq![b.drop_last()].update(0, b.drop_last().push(b.last())) =~= seq![b]);
    } else {
        assert(b =~= seq![]);
    }
}

/// Appending `\n` and a text without `\n` appends that text as one more piece.
proof fn lemma_split_append(a: Seq<char>, b: Seq<char>)
    requires
        no_newline(b),
    ensures
        split_newlines(a + seq!['\n'] + b) == split_newlines(a).push(b),
    decreases b.len(),
{
    let t = a + seq!['\n'] + b;
    if b.len() == 0 {
        assert(t =~= a.push('\n'));
        assert(t.drop_last() =~= a);
        assert(b =~= seq![]);
    } else {
        lemma_split_append(a, b.drop_last());
        lemma_split_newlines_len(a);
        assert(t.drop_last() =~= a + seq!['\n'] + b.drop_last());
        assert(t.last() == b.last());
        let p = split_newlines(a).push(b.drop_last());
        assert(p.update(p.len() - 1, p.last().push(b.last())) =~= split_newlines(a).push(b)) by {
            assert(b.drop_last().push(b.last()) =~= b);
        }
    }
}

/// Splitting lines joined with `\n` gives the lines back, when none holds a `\n`.
pub proof fn lemma_split_join_lines(parts: Seq<Seq<char>>)
    requires
        parts.len() >= 1,
        forall|i: int| 0 <= i < parts.len() ==> no_newline(#[trigger] parts[i]),
    ensures
        split_newlines(join_lines(parts)) == parts,
    decreases parts.len(),
{
    if parts.len() == 1 {
        lemma_split_single(parts[0]);
        assert(parts =~= seq![parts[0]]);
    } else {
        let init = parts.drop_last();
        assert forall|i: int| 0 <= i < init.len() implies no_newline(#[trigger] init[i]) by {
            assert(init[i] == parts[i]);
        }
        lemma_split_join_lines(init);
        assert(no_newline(parts[parts.len() - 1]));
        lemma_split_append(join_lines(init), parts.last());
        assert(init.push(parts.last()) =~= parts);
    }
}

/// No line of a text holds a `\n`.
proof fn lemma_lines_from_no_newline(s: Seq<char>, cur: Seq<char>)
    requires
        no_newline(cur),
    ensures
        forall|i: int| 0 <= i < lines_from(s, cur).len() ==> no_newline(#[trigger] lines_from(s, cur)[i]),
    decreases s.len(),
{
    if s.len() == 0 {
        if cur.len() > 0 {
            assert(lines_from(s, cur) =~= seq![cur]);
        }
    } else if s[0] == '\n' {
        assert(no_newline(strip_cr(cur))) by {
            if cur.len() > 0 && cur.last() == '\r' {
                assert forall|k: int| 0 <= k < cur.drop_last().len() implies cur.drop_last()[k] != '\n' by {
                    assert(cur.drop_last()[k] == cur[k]);
                }
            }
        }
        lemma_lines_from_no_newline(s.drop_first(), seq![]);
        let rest = lines_from(s.drop_first(), seq![]);
        let all = seq![strip_cr(cur)] + rest;
        assert forall|i: int| 0 <= i < all.len() implies no_newline(#[trigger] all[i]) by {
            if i > 0 {
                assert(all[i] == rest[i - 1]);
            } else {
                assert(all[i] == strip_cr(cur));
            }
        }
    } else {
        assert(lines_from(s, cur) == lines_from(s.drop_first(), cur.push(s[0])));
        lemma_lines_from_no_newline(s.drop_first(), cur.push(s[0]));
    }
}

/// Splitting the extracted text at its `\n` gives one piece per line the range reaches:
/// the first line from the start character on, the last line up to the end character, the
/// lines between whole; on a single line, the characters from start to end (nothing when
/// the start comes after the end). Offsets past a line's end are clamped to it.
pub proof fn law_extract_range_pieces(content: Seq<char>, range: Range)
    requires
        lines_of(content).len() > 0,
        range.start.line <= clamped_end_line(lines_of(content).len() as int, range.end.line as int),
    ensures
        ({
            let lines = lines_of(content);
            let s = range.start.line as int;
            let e = clamped_end_line(lines.len() as int, range.end.line as int);
            let p = split_newlines(extract_range_spec(content, range));
            &&& p.len() == e - s + 1
            &&& forall|i: int|
                0 <= i <= e - s ==> #[trigger] p[i] == line_piece(
                    lines[s + i],
                    i,
                    e - s,
                    range.start.character as int,
                    range.end.character as int,
                )
        }),
{
    let lines = lines_of(content);
    let s = range.start.line as int;
    let e = clamped_end_line(lines.len() as int, range.end.line as int);
    let parts = Seq::new(
        (e - s + 1) as nat,
        |i: int| line_piece(lines[s + i], i, e - s, range.start.character as int, range.end.character as int),
    );
    lemma_lines_from_no_newline(content, seq![]);
    assert forall|i: int| 0 <= i < parts.len() implies no_newline(#[trigger] parts[i]) by {
        let line = lines[s + i];
        assert(no_newline(line));
        let piece = parts[i];
        assert forall|k: int| 0 <= k < piece.len() implies piece[k] != '\n' by {
            let n = line.len() as int;
            let a = min_int(range.start.character as int, n);
            let b = min_int(range.end.character as int, n);
            if i == 0 && e - s == 0 {
                if a <= b {
                    assert(piece[k] == line[a + k]);
                }
            } else if i == 0 {
                assert(piece[k] == line[a + k]);
            } else if i == e - s {
                assert(piece[k] == line[k]);
            }
        }
    }
    lemma_split_join_lines(parts);
}

/// The characters `a..b` of a line (`a <= b <= line.len()`).
fn copy_chars(line: &Vec<char>, a: usize, b: usize) -> (r: Vec<char>)
    requires
        a <= b <= line.len(),
    ensures
        r@ == line@.subrange(a as int, b as int),
{
    let mut r: Vec<char> = Vec::new();
    let mut t = a;
    while t < b
        invariant
            a <= t <= b <= line.len(),
            r@ == line@.subrange(a as int, t as int),
        decreases b - t,
    {
        r.push(line[t]);
        assert(line@.subrange(a as int, t + 1) =~= line@.subrange(a as int, t as int).push(line@[t as int]));
        t = t + 1;
    }
    r
}

/// The text that `range` covers in `content` (see `extract_range_spec`).
pub fn extract_range(content: &str, range: &Range) -> (r: String)
    ensures
        r@ == extract_range_spec(content@, *range),
{
    let chars = chars_of(content);
    let lines = split_lines(&chars);
    let ghost lv = views_of(lines@);
    assert(lv.len() == lines@.len());
    let total = lines.len();
    if total == 0 {
        return String::new();
    }
    let start_line = range.start.line as usize;
    let end_line = if range.end.line as usize >= total {
        total - 1
    } else {
        range.end.line as usize
    };
    if start_line > end_line {
        return String::new();
    }
    let last = end_line - start_line;
    let ghost parts = Seq::new(
        (last + 1) as nat,
        |i: int|
            line_piece(
                lv[start_line + i],
                i,
                last as int,
                range.start.character as int,
                range.end.character as int,
            ),
    );
    let mut out: Vec<char> = Vec::new();
    let mut i: usize = 0;
    while i <= last
        invariant
            start_line + last == end_line,
            end_line < total,
            total == lines.len(),
            lv == views_of(lines@),
            lv.len() == total,
            parts.len() == last + 1,
            forall|k: int|
                0 <= k <= last ==> #[trigger] parts[k] == line_piece(
                    lv[start_line + k],
                    k,
                    last as int,
                    range.start.character as int,
                    range.end.character as int,
                ),
            i <= last + 1,
            i == 0 ==> out@.len() == 0,
            i > 0 ==> out@ == join_lines(parts.take(i as int)),
        decreases last + 1 - i,
    {
        let line = &lines[start_line + i];
        assert(lv[start_line + i] == line@);
        let n = line.len();
        let sc: usize = if (range.start.character as usize) < n {
            range.start.character as usize
        } else {
            n
        };
        let ec: usize = if (range.end.character as usize) < n {
            range.end.character as usize
        } else {
            n
        };
        let piece: Vec<char> = if i == 0 && last == 0 {
            if sc <= ec {
                copy_chars(line, sc, ec)
            } else {
                Vec::new()
            }
        } else if i == 0 {
            copy_chars(line, sc, n)
        } else if i == last {
            copy_chars(line, 0, ec)
        } else {
            let c = copy_chars(line, 0, n);
            assert(line@.subrange(0, n as int) =~= line@);
            c
        };
        assert(piece@ == parts[i as int]);
        if i > 0 {
            out.push('\n');
        }
        let mut t: usize = 0;
        let ghost before = out@;
        while t < piece.len()
            invariant
                t <= piece.len(),
                out@ == before + piece@.take(t as int),
            decreases piece.len() - t,
        {
            out.push(piece[t]);
            assert(piece@.take(t + 1) =~= piece@.take(t as int).push(piece@[t as int]));
            t = t + 1;
        }
        assert(piece@.take(piece.len() as int) =~= piece@);
        proof {
            let next = parts.take(i + 1);
            assert(next.drop_last() =~= parts.take(i as int));
            assert(next.last() == parts[i as int]);
            if i == 0 {
                assert(next.len() == 1);
                assert(out@ =~= piece@);
            } else {
                assert(out@ =~= join_lines(parts.take(i as int)) + seq!['\n'] + piece@);
            }
        }
        i = i + 1;
    }
    assert(parts.take((last + 1) as int) =~= parts);
    let r = string_of(&out);
    r
}

} // verus!

verus! {

/// Whether two strings are equal.
pub fn str_eq(a: &str, b: &str) -> (r: bool)
    ensures
        r == (a@ == b@),
{
    let x = chars_of(a);
    let y = chars_of(b);
    if x.len() != y.len() {
        return false;
    }
    let mut i: usize = 0;
    while i < x.len()
        invariant
            i <= x.len() == y.len(),
            x@ == a@,
            y@ == b@,
            forall|k: int| 0 <= k < i ==> x@[k] == y@[k],
        decreases x.len() - i,
    {
        if x[i] != y[i] {
            assert(x@[i as int] != y@[i as int]);
            return false;
        }
        i = i + 1;
    }
    assert(x@ =~= y@);
    true
}

/// Whether `s` begins with `prefix`.
pub fn starts_with(s: &str, prefix: &str) -> (r: bool)
    ensures
        r == (prefix@.len() <= s@.len() && s@.take(prefix@.len() as int) == prefix@),
{
    let x = chars_of(s);
    let y = chars_of(prefix);
    if y.len() > x.len() {
        return false;
    }
    let mut i: usize = 0;
    while i < y.len()
        invariant
            i <= y.len() <= x.len(),
            x@ == s@,
            y@ == prefix@,
            forall|k: int| 0 <= k < i ==> x@[k] == y@[k],
        decreases y.len() - i,
    {
        if x[i] != y[i] {
            assert(x@.take(y@.len() as int)[i as int] == x@[i as int]);
            assert(x@.take(y@.len() as int)[i as int] != y@[i as int]);
            assert(x@.take(y@.len() as int) != y@);
            return false;
        }
        i = i + 1;
    }
    assert(x@.take(y@.len() as int) =~= y@);
    true
}

/// `a` comes strictly before `b` in lexicographic order of characters, which is the
/// order of their UTF-8 bytes.
pub open spec fn lex_lt(a: Seq<char>, b: Seq<char>) -> bool
    decreases a.len(),
{
    if a.len() == 0 {
        b.len() > 0
    } else if b.len() == 0 {
        false
    } else if (a[0] as u32) < (b[0] as u32) {
        true
    } else if (a[0] as u32) > (b[0] as u32) {
        false
    } else {
        lex_lt(a.drop_first(), b.drop_first())
    }
}

/// `a` comes no later than `b` in lexicographic order.
pub open spec fn lex_le(a: Seq<char>, b: Seq<char>) -> bool {
    a == b || lex_lt(a, b)
}

/// Lexicographic order is total.
pub proof fn lemma_lex_total(a: Seq<char>, b: Seq<char>)
    ensures
        lex_lt(a, b) || a == b || lex_lt(b, a),
        !(lex_lt(a, b) && lex_lt(b, a)),
        !(lex_lt(a, b) && a == b),
    decreases a.len(),
{
    if a.len() > 0 && b.len() > 0 && (a[0] as u32) == (b[0] as u32) {
        vstd::utf8::char_u32_cast(a[0], a[0] as u32);
        vstd::utf8::char_u32_cast(b[0], b[0] as u32);
        assert(a[0] == b[0]);
        lemma_lex_total(a.drop_first(), b.drop_first());
        if a.drop_first() == b.drop_first() {
            assert forall|i: int| 0 <= i < a.len() implies a[i] == b[i] by {
                if i > 0 {
                    assert(a[i] == a.drop_first()[i - 1]);
                    assert(b[i] == b.drop_first()[i - 1]);
                }
            }
            assert(a =~= b);
        }
    }
    if a.len() == 0 && b.len() == 0 {
        assert(a =~= b);
    }
}

/// Lexicographic order is transitive.
pub proof fn lemma_lex_trans(a: Seq<char>, b: Seq<char>, c: Seq<char>)
    requires
        lex_lt(a, b),
        lex_lt(b, c),
    ensures
        lex_lt(a, c),
    decreases a.len(),
{
    if a.len() > 0 && b.len() > 0 && c.len() > 0 && (a[0] as u32) == (b[0] as u32) && (b[0] as u32)
        == (c[0] as u32) {
        lemma_lex_trans(a.drop_first(), b.drop_first(), c.drop_first());
    }
}

/// Compares two strings lexicographically: -1, 0 or 1.
pub fn compare_str(a: &str, b: &str) -> (r: i8)
    ensures
        r == -1 <==> lex_lt(a@, b@),
        r == 0 <==> a@ == b@,
        r == 1 <==> lex_lt(b@, a@),
        -1 <= r <= 1,
{
    let x = chars_of(a);
    let y = chars_of(b);
    proof {
        lemma_lex_total(a@, b@);
    }
    let mut i: usize = 0;
    assert(x@.skip(0) =~= x@);
    assert(y@.skip(0) =~= y@);
    while i < x.len() && i < y.len()
        invariant
            i <= x.len(),
            i <= y.len(),
            x@ == a@,
            y@ == b@,
            forall|k: int| 0 <= k < i ==> x@[k] == y@[k],
            lex_lt(x@, y@) == lex_lt(x@.skip(i as int), y@.skip(i as int)),
            lex_lt(y@, x@) == lex_lt(y@.skip(i as int), x@.skip(i as int)),
        decreases x.len() - i,
    {
        let cx = x[i] as u32;
        let cy = y[i] as u32;
        assert(x@.skip(i as int)[0] == x@[i as int]);
        assert(y@.skip(i as int)[0] == y@[i as int]);
        if cx < cy {
            assert(x@ != y@) by {
                assert(x@[i as int] != y@[i as int]);
            }
            return -1;
        } else if cx > cy {
            assert(x@ != y@) by {
                assert(x@[i as int] != y@[i as int]);
            }
            return 1;
        }
        proof {
            vstd::utf8::char_u32_cast(x@[i as int], cx);
            vstd::utf8::char_u32_cast(y@[i as int], cy);
        }
        assert(x@.skip(i as int).drop_first() =~= x@.skip(i + 1));
        assert(y@.skip(i as int).drop_first() =~= y@.skip(i + 1));
        i = i + 1;
    }
    if x.len() == y.len() {
        assert(x@ =~= y@);
        0
    } else if x.len() < y.len() {
        assert(x@.skip(i as int).len() == 0);
        -1
    } else {
        assert(y@.skip(i as int).len() == 0);
        1
    }
}

/// The strings of `v` are in lexicographic order.
pub open spec fn sorted_strings(v: Seq<String>) -> bool {
    forall|i: int, j: int| 0 <= i < j < v.len() ==> lex_le(#[trigger] v[i]@, #[trigger] v[j]@)
}

/// Sorts strings into lexicographic order.
pub fn sort_strings(v: Vec<String>) -> (r: Vec<String>)
    ensures
        sorted_strings(r@),
        r@.to_multiset() == v@.to_multiset(),
{
    broadcast use vstd::multiset::group_multiset_axioms, vstd::seq_lib::group_to_multiset_ensures;

    let mut r: Vec<String> = Vec::new();
    let mut i: usize = 0;
    while i < v.len()
        invariant
            i <= v.len(),
            sorted_strings(r@),
            r@.to_multiset() == v@.take(i as int).to_multiset(),
        decreases v.len() - i,
    {
        let x = v[i].clone();
        let mut p: usize = 0;
        while p < r.len() && compare_str(r[p].as_str(), x.as_str()) <= 0
            invariant
                p <= r@.len(),
                forall|k: int| 0 <= k < p ==> lex_le(#[trigger] r@[k]@, x@),
            decreases r@.len() - p,
        {
            p = p + 1;
        }
        let ghost old_r = r@;
        proof {
            assert forall|k: int| p <= k < old_r.len() implies lex_lt(x@, #[trigger] old_r[k]@) by {
                lemma_lex_total(x@, old_r[p as int]@);
                if k > p {
                    assert(lex_le(old_r[p as int]@, old_r[k]@));
                    if old_r[p as int]@ != old_r[k]@ {
                        lemma_lex_trans(x@, old_r[p as int]@, old_r[k]@);
                    }
                }
            }
        }
        r.insert(p, x);
        proof {
            let ins = old_r.insert(p as int, x);
            assert(r@ == ins);
            assert forall|a: int, b: int| 0 <= a < b < r@.len() implies lex_le(#[trigger] r@[a]@, #[trigger] r@[b]@) by {
                if b < p {
                    assert(r@[a] == old_r[a] && r@[b] == old_r[b]);
                } else if b == p {
                    assert(r@[a] == old_r[a]);
                } else if a > p {
                    assert(r@[a] == old_r[a - 1] && r@[b] == old_r[b - 1]);
                } else if a == p {
                    assert(r@[b] == old_r[b - 1]);
                } else {
                    assert(r@[a] == old_r[a] && r@[b] == old_r[b - 1]);
                    assert(lex_le(old_r[a]@, x@));
                    assert(lex_lt(x@, old_r[b - 1]@));
                    if old_r[a]@ != x@ {
                        lemma_lex_trans(old_r[a]@, x@, old_r[b - 1]@);
                    }
                }
            }
            assert(v@.take(i + 1) =~= v@.take(i as int).push(v@[i as int]));
            assert(v@[i as int] == x);
            assert(ins.remove(p as int) =~= old_r);
            ins.to_multiset_ensures();
            old_r.to_multiset_ensures();
            assert(ins[p as int] == x);
            assert(ins.contains(x));
            assert(ins.to_multiset() =~= old_r.to_multiset().insert(x));
            v@.take(i as int).to_multiset_ensures();
        }
        i = i + 1;
    }
    assert(v@.take(v.len() as int) =~= v@);
    r
}

/// Some string of the list reads `s`.
pub open spec fn strings_contain(v: Seq<String>, s: Seq<char>) -> bool {
    exists|i: int| 0 <= i < v.len() && (#[trigger] v[i])@ == s
}

/// Whether some string of the list reads `s`.
pub fn contains_string(v: &Vec<String>, s: &str) -> (r: bool)
    ensures
        r == strings_contain(v@, s@),
{
    let mut i: usize = 0;
    while i < v.len()
        invariant
            i <= v@.len(),
            forall|k: int| 0 <= k < i ==> (#[trigger] v@[k])@ != s@,
        decreases v@.len() - i,
    {
        if str_eq(v[i].as_str(), s) {
            return true;
        }
        i = i + 1;
    }
    false
}

} // verus!
