//! The tag database: the tags of the workspace in a polars data frame, queried by file or
//! by name, each answer ordered by line and column.
use vstd::prelude::*;
use vstd::multiset::Multiset;
use polars::prelude::{IntoLazy, NamedFrom};
use crate::api_types::{FilePosition, FileRange, Position, Symbol};
use crate::tags::{TagColumns, TagTuple, columns_hold};

verus! {

/// A polars data frame.
#[verifier::external_type_specification]
#[verifier::external_body]
pub struct ExDataFrame(polars::prelude::DataFrame);

/// A polars series, a column of a data frame.
#[verifier::external_type_specification]
#[verifier::external_body]
pub struct ExSeries(polars::prelude::Series);

/// An error that polars reports.
#[verifier::external_type_specification]
#[verifier::external_body]
pub struct ExPolarsError(polars::prelude::PolarsError);

/// The rows a tag frame holds, in order: name, kind, language, file name, line, column and
/// end line.
pub uninterp spec fn spec_frame_rows(df: polars::prelude::DataFrame) -> Seq<TagTuple>;

/// The frame has the columns of a tag frame, in order and each of its type: `name`,
/// `kind`, `language` and `file_name` of strings, `line`, `column` and `end_line` of `u32`.
pub uninterp spec fn spec_is_tag_frame(df: polars::prelude::DataFrame) -> bool;

/// The rows the columns stand for.
pub open spec fn column_rows(c: TagColumns) -> Seq<TagTuple> {
    Seq::new(
        c.names@.len(),
        |i: int|
            (
                c.names@[i]@,
                c.kinds@[i]@,
                c.languages@[i]@,
                c.files@[i]@,
                c.start_lines@[i],
                c.start_characters@[i],
                c.end_lines@[i],
            ),
    )
}

/// All columns have the same length.
pub open spec fn columns_aligned(c: TagColumns) -> bool {
    let n = c.names@.len();
    c.kinds@.len() == n && c.languages@.len() == n && c.files@.len() == n && c.start_lines@.len() == n
        && c.start_characters@.len() == n && c.end_lines@.len() == n
}

/// Builds a frame from the columns with `DataFrame::new`, a series per column (`name`,
/// `kind`, `language`, `file_name`, `line`, `column`, `end_line`). Claimed: the series
/// have equal lengths and distinct names, the only two things `DataFrame::new` checks, so it
/// succeeds; the frame is a tag frame and holds the rows of the columns.
#[verifier::external_body]
fn frame_from_columns(c: TagColumns) -> (r: Result<polars::prelude::DataFrame, polars::prelude::PolarsError>)
    requires
        columns_aligned(c),
    ensures
        r is Ok,
        r matches Ok(df) ==> spec_is_tag_frame(df) && spec_frame_rows(df) == column_rows(c),
{
    polars::prelude::DataFrame::new(vec![
        polars::prelude::Series::new("name", c.names),
        polars::prelude::Series::new("kind", c.kinds),
        polars::prelude::Series::new("language", c.languages),
        polars::prelude::Series::new("file_name", c.files),
        polars::prelude::Series::new("line", c.start_lines),
        polars::prelude::Series::new("column", c.start_characters),
        polars::prelude::Series::new("end_line", c.end_lines),
    ])
}

/// Stacks two frames with `DataFrame::vstack`. Claimed: `vstack` fails only on frames of
/// different widths, column names or column types, so it succeeds on two tag frames; the
/// result is a tag frame with the rows of the first, then those of the second.
#[verifier::external_body]
fn frame_vstack(a: &polars::prelude::DataFrame, b: &polars::prelude::DataFrame) -> (r: Result<polars::prelude::DataFrame, polars::prelude::PolarsError>)
    requires
        spec_is_tag_frame(*a),
        spec_is_tag_frame(*b),
    ensures
        r is Ok,
        r matches Ok(df) ==> spec_is_tag_frame(df) && spec_frame_rows(df) == spec_frame_rows(*a) + spec_frame_rows(*b),
{
    a.vstack(b)
}

/// The number of rows, with `DataFrame::height`.
#[verifier::external_body]
fn frame_height(df: &polars::prelude::DataFrame) -> (r: usize)
    ensures
        r == spec_frame_rows(*df).len(),
{
    df.height()
}

/// An empty frame with the same columns, with `DataFrame::clear`: each column cleared keeps
/// its name and type.
#[verifier::external_body]
fn frame_clear(df: &polars::prelude::DataFrame) -> (r: polars::prelude::DataFrame)
    ensures
        spec_frame_rows(r) == Seq::<TagTuple>::empty(),
        spec_is_tag_frame(r) == spec_is_tag_frame(*df),
{
    df.clear()
}

/// The text field of a row that a string column holds.
pub open spec fn text_field(row: TagTuple, column: Seq<char>) -> Seq<char> {
    if column == "name"@ {
        row.0
    } else if column == "kind"@ {
        row.1
    } else if column == "language"@ {
        row.2
    } else {
        row.3
    }
}

/// A string column of the frame.
pub open spec fn is_text_column(column: Seq<char>) -> bool {
    column == "name"@ || column == "kind"@ || column == "language"@ || column == "file_name"@
}

/// The rows whose text field equals the value, in order.
pub open spec fn rows_with(rows: Seq<TagTuple>, column: Seq<char>, value: Seq<char>) -> Seq<TagTuple> {
    rows.filter(|row: TagTuple| text_field(row, column) == value)
}

/// Rows come in order of line, then column.
pub open spec fn sorted_by_position(rows: Seq<TagTuple>) -> bool {
    forall|i: int, j: int|
        0 <= i < j < rows.len() ==> (#[trigger] rows[i]).4 < (#[trigger] rows[j]).4 || (rows[i].4 == rows[j].4
            && rows[i].5 <= rows[j].5)
}

/// Selects the rows whose string column equals the value and sorts them by line and column,
/// with polars' lazy `filter` and `sort_by_exprs` (the order of rows on the same line and
/// column is left to polars). Claimed: on a tag frame no column the query names is
/// missing or of another type, so it succeeds, and the result is a tag frame; when it succeeds, the result
/// holds exactly the selected rows, each as often, sorted.
#[verifier::external_body]
fn frame_select_sorted(df: &polars::prelude::DataFrame, column: &str, value: &str, line: &str, col: &str) -> (r: Result<polars::prelude::DataFrame, polars::prelude::PolarsError>)
    requires
        is_text_column(column@),
        line@ == "line"@,
        col@ == "column"@,
    ensures
        spec_is_tag_frame(*df) ==> r is Ok,
        r matches Ok(out) ==> spec_frame_rows(out).to_multiset() == rows_with(spec_frame_rows(*df), column@, value@).to_multiset()
            && sorted_by_position(spec_frame_rows(out)) && (spec_is_tag_frame(*df) ==> spec_is_tag_frame(out)),
{
    df.clone().lazy().filter(polars::prelude::col(column).eq(polars::prelude::lit(value))).sort_by_exprs(
        vec![polars::prelude::col(line), polars::prelude::col(col)],
        vec![false, false],
        false,
        false,
    ).collect()
}

/// The values of a string column, with `Series::str`. Claimed: on a tag frame the column
/// exists and holds strings, so it succeeds; the text field of each row, in order.
#[verifier::external_body]
fn frame_text_column(df: &polars::prelude::DataFrame, column: &str) -> (r: Result<Vec<Option<String>>, polars::prelude::PolarsError>)
    requires
        is_text_column(column@),
    ensures
        spec_is_tag_frame(*df) ==> r is Ok,
        r matches Ok(v) ==> v@.len() == spec_frame_rows(*df).len() && forall|i: int|
            0 <= i < v@.len() ==> crate::paths::opt_view(#[trigger] v@[i]) == Some(text_field(spec_frame_rows(*df)[i], column@)),
{
    Ok(df.column(column)?.str()?.into_iter().map(|v| v.map(|s| s.to_string())).collect())
}

/// The number field of a row that a `u32` column holds.
pub open spec fn number_field(row: TagTuple, column: Seq<char>) -> u32 {
    if column == "line"@ {
        row.4
    } else if column == "column"@ {
        row.5
    } else {
        row.6
    }
}

/// A `u32` column of the frame.
pub open spec fn is_number_column(column: Seq<char>) -> bool {
    column == "line"@ || column == "column"@ || column == "end_line"@
}

/// The values of a `u32` column, with `Series::u32`. Claimed: on a tag frame the column
/// exists and holds `u32` values, so it succeeds; the number field of each row, in order.
#[verifier::external_body]
fn frame_number_column(df: &polars::prelude::DataFrame, column: &str) -> (r: Result<Vec<Option<u32>>, polars::prelude::PolarsError>)
    requires
        is_number_column(column@),
    ensures
        spec_is_tag_frame(*df) ==> r is Ok,
        r matches Ok(v) ==> v@.len() == spec_frame_rows(*df).len() && forall|i: int|
            0 <= i < v@.len() ==> v@[i] == Some(number_field(spec_frame_rows(*df)[i], column@)),
{
    Ok(df.column(column)?.u32()?.into_iter().collect())
}

/// The symbol a tag stands for: its name and kind, its start as the identifier's position,
/// and its lines as range.
pub open spec fn tag_symbol(row: TagTuple, s: Symbol) -> bool {
    &&& s.name@ == row.0
    &&& s.kind@ == row.1
    &&& s.identifier_position.path@ == row.3
    &&& s.identifier_position.position == Position { line: row.4, character: row.5 }
    &&& s.range.path@ == row.3
    &&& s.range.start == Position { line: row.4, character: row.5 }
    &&& s.range.end == Position { line: row.6, character: 0 }
}

/// The tags of the workspace.
pub struct TagDatabase {
    df: polars::prelude::DataFrame,
}

impl TagDatabase {
    /// The frame always has the columns of a tag frame.
    #[verifier::type_invariant]
    spec fn holds_tag_frame(self) -> bool {
        spec_is_tag_frame(self.df)
    }

    /// The tags held, in order.
    pub closed spec fn rows(&self) -> Seq<TagTuple> {
        spec_frame_rows(self.df)
    }

    /// An empty database.
    pub fn new() -> (r: Result<TagDatabase, polars::prelude::PolarsError>)
        ensures
            r is Ok,
            r matches Ok(db) ==> db.rows() == Seq::<TagTuple>::empty(),
    {
        let c = TagColumns {
            names: Vec::new(),
            kinds: Vec::new(),
            languages: Vec::new(),
            files: Vec::new(),
            start_lines: Vec::new(),
            start_characters: Vec::new(),
            end_lines: Vec::new(),
        };
        let ghost rows = column_rows(c);
        match frame_from_columns(c) {
            Ok(df) => {
                assert(rows =~= Seq::<TagTuple>::empty());
                Ok(TagDatabase { df })
            },
            Err(e) => Err(e),
        }
    }

    /// Adds tags after those held.
    pub fn add_tags_by_columns(&mut self, columns: TagColumns) -> (r: Result<(), polars::prelude::PolarsError>)
        requires
            columns_aligned(columns),
        ensures
            r is Ok,
            final(self).rows() == old(self).rows() + column_rows(columns),
    {
        proof {
            use_type_invariant(&*self);
        }
        let ghost added = column_rows(columns);
        let new_df = match frame_from_columns(columns) {
            Ok(df) => df,
            Err(e) => {
                return Err(e);
            },
        };
        if frame_height(&self.df) == 0 {
            assert(old(self).rows() + added =~= added);
            self.df = new_df;
        } else {
            match frame_vstack(&self.df, &new_df) {
                Ok(df) => {
                    self.df = df;
                },
                Err(e) => {
                    return Err(e);
                },
            }
        }
        Ok(())
    }

    /// Removes all tags.
    pub fn clear(&mut self)
        ensures
            final(self).rows() == Seq::<TagTuple>::empty(),
    {
        proof {
            use_type_invariant(&*self);
        }
        self.df = frame_clear(&self.df);
    }

    fn select(&self, column: &str, value: &str) -> (r: Result<Vec<Symbol>, polars::prelude::PolarsError>)
        requires
            is_text_column(column@),
        ensures
            r is Ok,
            r matches Ok(v) ==> exists|rs: Seq<TagTuple>|
                rs.to_multiset() == rows_with(self.rows(), column@, value@).to_multiset() && sorted_by_position(rs)
                    && rs.len() == v@.len() && forall|i: int| 0 <= i < rs.len() ==> tag_symbol(rs[i], #[trigger] v@[i]),
    {
        proof {
            reveal_strlit("line");
            reveal_strlit("column");
            reveal_strlit("name");
            reveal_strlit("kind");
            reveal_strlit("file_name");
            reveal_strlit("end_line");
            reveal_strlit("language");
            assert("kind"@[0] != "name"@[0]);
            assert("file_name"@.len() != "name"@.len());
            assert("file_name"@.len() != "kind"@.len());
            assert("file_name"@.len() != "language"@.len());
            assert("column"@.len() != "line"@.len());
            assert("end_line"@.len() != "line"@.len());
            assert("end_line"@.len() != "column"@.len());
            use_type_invariant(self);
        }
        let out = frame_select_sorted(&self.df, column, value, "line", "column")?;
        let ghost rs = spec_frame_rows(out);
        let names = frame_text_column(&out, "name")?;
        let kinds = frame_text_column(&out, "kind")?;
        let files = frame_text_column(&out, "file_name")?;
        let lines = frame_number_column(&out, "line")?;
        let cols = frame_number_column(&out, "column")?;
        let ends = frame_number_column(&out, "end_line")?;
        let mut v: Vec<Symbol> = Vec::new();
        let mut i: usize = 0;
        while i < names.len()
            invariant
                i <= names@.len(),
                names@.len() == rs.len() && kinds@.len() == rs.len() && files@.len() == rs.len(),
                lines@.len() == rs.len() && cols@.len() == rs.len() && ends@.len() == rs.len(),
                forall|k: int| 0 <= k < rs.len() ==> crate::paths::opt_view(#[trigger] names@[k]) == Some(rs[k].0),
                forall|k: int| 0 <= k < rs.len() ==> crate::paths::opt_view(#[trigger] kinds@[k]) == Some(rs[k].1),
                forall|k: int| 0 <= k < rs.len() ==> crate::paths::opt_view(#[trigger] files@[k]) == Some(rs[k].3),
                forall|k: int| 0 <= k < rs.len() ==> lines@[k] == Some(rs[k].4),
                forall|k: int| 0 <= k < rs.len() ==> cols@[k] == Some(rs[k].5),
                forall|k: int| 0 <= k < rs.len() ==> ends@[k] == Some(rs[k].6),
                v@.len() == i,
                forall|k: int| 0 <= k < i ==> tag_symbol(rs[k], #[trigger] v@[k]),
            decreases names@.len() - i,
        {
            assert(names@[i as int] is Some);
            assert(kinds@[i as int] is Some);
            assert(files@[i as int] is Some);
            let name = names[i].clone().unwrap();
            let kind = kinds[i].clone().unwrap();
            let file = files[i].clone().unwrap();
            let line = lines[i].unwrap();
            let column_no = cols[i].unwrap();
            let end = ends[i].unwrap();
            v.push(
                Symbol {
                    name,
                    kind,
                    identifier_position: FilePosition {
                        path: file.clone(),
                        position: Position { line, character: column_no },
                    },
                    range: FileRange {
                        path: file,
                        start: Position { line, character: column_no },
                        end: Position { line: end, character: 0 },
                    },
                },
            );
            i = i + 1;
        }
        Ok(v)
    }

    /// The tags of a file, as symbols, by line and column.
    pub fn get_file_symbols(&self, file_name: &str) -> (r: Result<Vec<Symbol>, polars::prelude::PolarsError>)
        ensures
            r is Ok,
            r matches Ok(v) ==> exists|rs: Seq<TagTuple>|
                rs.to_multiset() == rows_with(self.rows(), "file_name"@, file_name@).to_multiset() && sorted_by_position(rs)
                    && rs.len() == v@.len() && forall|i: int| 0 <= i < rs.len() ==> tag_symbol(rs[i], #[trigger] v@[i]),
    {
        self.select("file_name", file_name)
    }

    /// The tags of a name, as symbols, by line and column.
    pub fn find_symbol(&self, name: &str) -> (r: Result<Vec<Symbol>, polars::prelude::PolarsError>)
        ensures
            r is Ok,
            r matches Ok(v) ==> exists|rs: Seq<TagTuple>|
                rs.to_multiset() == rows_with(self.rows(), "name"@, name@).to_multiset() && sorted_by_position(rs)
                    && rs.len() == v@.len() && forall|i: int| 0 <= i < rs.len() ==> tag_symbol(rs[i], #[trigger] v@[i]),
    {
        self.select("name", name)
    }
}

/// The columns that `parse_tags` fills are aligned, so they can be added to the database.
pub proof fn lemma_parsed_columns_aligned(c: TagColumns, tags: Seq<TagTuple>)
    requires
        columns_hold(c, tags),
    ensures
        columns_aligned(c),
        column_rows(c) == tags,
{
    assert(column_rows(c) =~= tags);
}

/// The patterns of the files whose tags are kept: Python, TypeScript and JavaScript, and
/// Rust sources.
pub open spec fn tagged_file_patterns() -> Seq<Seq<char>> {
    seq!["**/*.py"@, "**/*.ts"@, "**/*.tsx"@, "**/*.js"@, "**/*.jsx"@, "**/*.rs"@]
}

/// The patterns of the files whose tags are kept.
pub fn tagged_file_pattern_list() -> (r: Vec<String>)
    ensures
        r@.map_values(|s: String| s@) == tagged_file_patterns(),
{
    let mut r: Vec<String> = Vec::new();
    r.push("**/*.py".to_owned());
    r.push("**/*.ts".to_owned());
    r.push("**/*.tsx".to_owned());
    r.push("**/*.js".to_owned());
    r.push("**/*.jsx".to_owned());
    r.push("**/*.rs".to_owned());
    assert(r@.map_values(|s: String| s@) =~= tagged_file_patterns());
    r
}

/// The options `ctags` is run with: TSX files read as TypeScript, line numbers, long kind
/// names and languages included, Python imports and Rust modules left out, universal-ctags
/// output to standard output, no warnings.
pub open spec fn ctags_options() -> Seq<Seq<char>> {
    seq![
        "--map-typescript=+.tsx"@,
        "--fields=+neKl"@,
        "--python-kinds=-iIx"@,
        "--rust-kinds=-n"@,
        "--output-format=u-ctags"@,
        "--quiet"@,
        "-f -"@,
    ]
}

/// The arguments of the `ctags` command: the options, then the files.
pub fn ctags_command_args(files: &Vec<String>) -> (r: Vec<String>)
    ensures
        r@.map_values(|s: String| s@) == ctags_options() + files@.map_values(|s: String| s@),
{
    let mut r: Vec<String> = Vec::new();
    r.push("--map-typescript=+.tsx".to_owned());
    r.push("--fields=+neKl".to_owned());
    r.push("--python-kinds=-iIx".to_owned());
    r.push("--rust-kinds=-n".to_owned());
    r.push("--output-format=u-ctags".to_owned());
    r.push("--quiet".to_owned());
    r.push("-f -".to_owned());
    assert(r@.map_values(|s: String| s@) =~= ctags_options());
    let mut i: usize = 0;
    while i < files.len()
        invariant
            i <= files@.len(),
            r@.map_values(|s: String| s@) == ctags_options() + files@.take(i as int).map_values(|s: String| s@),
        decreases files@.len() - i,
    {
        let ghost before = r@.map_values(|s: String| s@);
        r.push(files[i].clone());
        assert(files@.take(i + 1).map_values(|s: String| s@) =~= files@.take(i as int).map_values(|s: String| s@).push(
            files@[i as int]@,
        ));
        assert(r@.map_values(|s: String| s@) =~= before.push(files@[i as int]@));
        i = i + 1;
    }
    assert(files@.take(files@.len() as int) =~= files@);
    r
}

/// The tags of the workspace, kept up to date with its files.
pub struct CtagsClient {
    pub tags: TagDatabase,
}

impl CtagsClient {
    /// Adds the tags of `ctags` output to the database, files made relative to the mount
    /// directory.
    pub fn load(&mut self, ctags: &str, mount_dir: &str) -> (r: Result<(), polars::prelude::PolarsError>)
        requires
            crate::tags::tags_readable(ctags@),
        ensures
            r is Ok,
            final(self).tags.rows() == old(self).tags.rows() + crate::tags::tags_of_lines(
                crate::text::lines_of(ctags@),
                mount_dir@,
            ),
    {
        let columns = crate::tags::parse_tags(ctags, mount_dir);
        proof {
            lemma_parsed_columns_aligned(columns, crate::tags::tags_of_lines(crate::text::lines_of(ctags@), mount_dir@));
        }
        self.tags.add_tags_by_columns(columns)
    }

    /// Whether a change at `path` concerns the tags: some pattern of tagged files matches it
    /// and no exclude pattern does; both lists are tried in full. `None` when a pattern does
    /// not compile.
    pub fn event_matches(path: &str, exclude_patterns: &Vec<String>) -> (r: Option<bool>)
        ensures
            r == match (
                crate::documents::any_pattern_matches_seq(tagged_file_patterns(), path@),
                crate::documents::any_pattern_matches(exclude_patterns@, path@, 0),
            ) {
                (Some(a), Some(b)) => Some(a && !b),
                _ => None,
            },
    {
        let patterns = tagged_file_pattern_list();
        let included = crate::documents::any_matches(&patterns, path);
        let excluded = crate::documents::any_matches(exclude_patterns, path);
        proof {
            crate::documents::lemma_any_pattern_matches_seq(patterns@, path@);
        }
        match (included, excluded) {
            (Some(a), Some(b)) => Some(a && !b),
            _ => None,
        }
    }

    /// The tags of a file, as symbols, by line and column.
    pub fn get_file_symbols(&self, file_name: &str) -> (r: Result<Vec<Symbol>, polars::prelude::PolarsError>)
        ensures
            r is Ok,
            r matches Ok(v) ==> exists|rs: Seq<TagTuple>|
                rs.to_multiset() == rows_with(self.tags.rows(), "file_name"@, file_name@).to_multiset()
                    && sorted_by_position(rs) && rs.len() == v@.len() && forall|i: int|
                    0 <= i < rs.len() ==> tag_symbol(rs[i], #[trigger] v@[i]),
    {
        self.tags.get_file_symbols(file_name)
    }
}

} // verus!
