//! Annotations and how they are stored.
//!
//! Annotations live in an SQLite database. This module decides every statement
//! that is run against it and how a row is read back; running them is left to
//! the program. Repositories are identified by a hash of their path.
use vstd::prelude::*;
use vstd::utf8::encode_utf8;

use crate::outside::{sha256, sha256_of, str_eq};
use crate::text::{contains_name, has_name, opt_text, texts};

verus! {

/// Creates the tables and indices that do not exist yet.
pub const SCHEMA: &'static str = "
-- Repo lookup table (privacy: store hash, not absolute path)
CREATE TABLE IF NOT EXISTS repos (
    id INTEGER PRIMARY KEY,
    repo_hash TEXT NOT NULL UNIQUE,
    display_name TEXT
);

CREATE TABLE IF NOT EXISTS annotations (
    id INTEGER PRIMARY KEY,
    repo_id INTEGER NOT NULL REFERENCES repos(id),
    file_path TEXT NOT NULL,
    commit_sha TEXT,
    side TEXT NOT NULL DEFAULT 'new',
    start_line INTEGER NOT NULL,
    end_line INTEGER,
    annotation_type TEXT NOT NULL DEFAULT 'comment'
        CHECK (annotation_type IN ('comment', 'todo', 'ai_prompt')),
    content TEXT NOT NULL,
    anchor_line INTEGER DEFAULT 0,
    anchor_text TEXT DEFAULT '',
    context_before TEXT DEFAULT '',
    context_after TEXT DEFAULT '',
    created_at DATETIME DEFAULT CURRENT_TIMESTAMP,
    resolved_at DATETIME,

    CHECK (start_line > 0),
    CHECK (end_line IS NULL OR end_line >= start_line)
);

CREATE INDEX IF NOT EXISTS idx_repo_file ON annotations(repo_id, file_path);
CREATE INDEX IF NOT EXISTS idx_unresolved ON annotations(resolved_at) WHERE resolved_at IS NULL;
";

/// Enables write-ahead logging, for concurrent access.
pub const JOURNAL_MODE: &'static str = "PRAGMA journal_mode=WAL;";

/// How long a statement waits for a locked database, in seconds.
pub const BUSY_TIMEOUT_SECS: u64 = 30;

/// Lists the columns of the annotation table; column 1 of a row is the name.
pub const TABLE_INFO: &'static str = "PRAGMA table_info(annotations)";

/// What an annotation is.
#[derive(Debug, Clone, Copy, PartialEq, Eq, Structural)]
pub enum AnnotationType {
    Comment,
    Todo,
}

/// The side of a diff that an annotation is about.
#[derive(Debug, Clone, Copy, PartialEq, Eq, Structural)]
pub enum Side {
    Old,
    New,
}

/// The stored name of an annotation type.
pub open spec fn stored_type(t: AnnotationType) -> Seq<char> {
    match t {
        AnnotationType::Comment => "comment"@,
        AnnotationType::Todo => "todo"@,
    }
}

/// The annotation type with a stored name.
pub open spec fn read_type(s: Seq<char>) -> Option<AnnotationType> {
    if s == "comment"@ {
        Some(AnnotationType::Comment)
    } else if s == "todo"@ {
        Some(AnnotationType::Todo)
    } else {
        None
    }
}

/// The stored name of a side.
pub open spec fn stored_side(side: Side) -> Seq<char> {
    match side {
        Side::Old => "old"@,
        Side::New => "new"@,
    }
}

/// The side with a stored name.
pub open spec fn read_side(s: Seq<char>) -> Option<Side> {
    if s == "old"@ {
        Some(Side::Old)
    } else if s == "new"@ {
        Some(Side::New)
    } else {
        None
    }
}

impl AnnotationType {
    /// The stored name.
    pub fn as_str(&self) -> (r: &'static str)
        ensures
            r@ == stored_type(*self),
    {
        match self {
            AnnotationType::Comment => "comment",
            AnnotationType::Todo => "todo",
        }
    }

    /// What a stored name stands for.
    pub fn from_str(s: &str) -> (r: Option<Self>)
        ensures
            r == read_type(s@),
    {
        if str_eq(s, "comment") {
            Some(AnnotationType::Comment)
        } else if str_eq(s, "todo") {
            Some(AnnotationType::Todo)
        } else {
            None
        }
    }
}

impl Side {
    /// The stored name.
    pub fn as_str(&self) -> (r: &'static str)
        ensures
            r@ == stored_side(*self),
    {
        match self {
            Side::Old => "old",
            Side::New => "new",
        }
    }

    /// What a stored name stands for.
    pub fn from_str(s: &str) -> (r: Option<Self>)
        ensures
            r == read_side(s@),
    {
        if str_eq(s, "old") {
            Some(Side::Old)
        } else if str_eq(s, "new") {
            Some(Side::New)
        } else {
            None
        }
    }
}

/// Reading a type's stored name gives the type back, and only the stored
/// names are read.
pub proof fn law_type_names(t: AnnotationType, s: Seq<char>)
    ensures
        read_type(stored_type(t)) == Some(t),
        read_type(s) == Some(t) <==> s == stored_type(t),
{
    reveal_strlit("comment");
    reveal_strlit("todo");
    assert("comment"@.len() != "todo"@.len());
}

/// Reading a side's stored name gives the side back, and only the stored
/// names are read.
pub proof fn law_side_names(side: Side, s: Seq<char>)
    ensures
        read_side(stored_side(side)) == Some(side),
        read_side(s) == Some(side) <==> s == stored_side(side),
{
    reveal_strlit("old");
    reveal_strlit("new");
    assert("old"@[0] != "new"@[0]);
}

/// A remark on a line or a range of lines of a file.
#[derive(Debug)]
pub struct Annotation {
    pub id: i64,
    pub repo_id: i64,
    pub file_path: String,
    pub commit_sha: Option<String>,
    pub side: Side,
    pub start_line: u32,
    pub end_line: Option<u32>,
    pub annotation_type: AnnotationType,
    pub content: String,
    pub anchor_line: u32,
    pub anchor_text: String,
    pub context_before: String,
    pub context_after: String,
    pub created_at: String,
    pub resolved_at: Option<String>,
}

/// The value of an [`Annotation`].
#[verifier::ext_equal]
pub struct AnnotationV {
    pub id: i64,
    pub repo_id: i64,
    pub file_path: Seq<char>,
    pub commit_sha: Option<Seq<char>>,
    pub side: Side,
    pub start_line: u32,
    pub end_line: Option<u32>,
    pub annotation_type: AnnotationType,
    pub content: Seq<char>,
    pub anchor_line: u32,
    pub anchor_text: Seq<char>,
    pub context_before: Seq<char>,
    pub context_after: Seq<char>,
    pub created_at: Seq<char>,
    pub resolved_at: Option<Seq<char>>,
}

impl View for Annotation {
    type V = AnnotationV;

    open spec fn view(&self) -> AnnotationV {
        AnnotationV {
            id: self.id,
            repo_id: self.repo_id,
            file_path: self.file_path@,
            commit_sha: opt_text(self.commit_sha),
            side: self.side,
            start_line: self.start_line,
            end_line: self.end_line,
            annotation_type: self.annotation_type,
            content: self.content@,
            anchor_line: self.anchor_line,
            anchor_text: self.anchor_text@,
            context_before: self.context_before@,
            context_after: self.context_after@,
            created_at: self.created_at@,
            resolved_at: opt_text(self.resolved_at),
        }
    }
}

impl Clone for Annotation {
    fn clone(&self) -> (r: Self)
        ensures
            r@ == self@,
    {
        Annotation {
            id: self.id,
            repo_id: self.repo_id,
            file_path: self.file_path.clone(),
            commit_sha: self.commit_sha.clone(),
            side: self.side,
            start_line: self.start_line,
            end_line: self.end_line,
            annotation_type: self.annotation_type,
            content: self.content.clone(),
            anchor_line: self.anchor_line,
            anchor_text: self.anchor_text.clone(),
            context_before: self.context_before.clone(),
            context_after: self.context_after.clone(),
            created_at: self.created_at.clone(),
            resolved_at: self.resolved_at.clone(),
        }
    }
}

/// The values of a list of annotations.
pub open spec fn annotation_views(list: Seq<Annotation>) -> Seq<AnnotationV> {
    Seq::new(list.len(), |i: int| list[i]@)
}

impl AnnotationV {
    /// Whether the annotation's range holds a line of its side: the lines from
    /// the first to the last, or the one line where there is no last.
    pub open spec fn covers(self, line: u32) -> bool {
        &&& self.start_line <= line
        &&& match self.end_line {
            Some(end) => end >= line,
            None => self.start_line == line,
        }
    }
}

impl Annotation {
    /// Whether the annotation's range holds a line.
    pub fn covers(&self, line: u32) -> (r: bool)
        ensures
            r == self@.covers(line),
    {
        self.start_line <= line && match self.end_line {
            Some(end) => end >= line,
            None => self.start_line == line,
        }
    }
}

// ---------------------------------------------------------------------------
// Repository hashes
// ---------------------------------------------------------------------------
/// The hexadecimal digit of a value below sixteen, in lower case.
pub open spec fn hex_digit(n: int) -> char {
    if n == 0 { '0' } else if n == 1 { '1' } else if n == 2 { '2' } else if n == 3 { '3' }
    else if n == 4 { '4' } else if n == 5 { '5' } else if n == 6 { '6' } else if n == 7 { '7' }
    else if n == 8 { '8' } else if n == 9 { '9' } else if n == 10 { 'a' } else if n == 11 { 'b' }
    else if n == 12 { 'c' } else if n == 13 { 'd' } else if n == 14 { 'e' } else { 'f' }
}

/// The bytes in hexadecimal: two digits each, the high one first.
pub open spec fn hex_of(bytes: Seq<u8>) -> Seq<char> {
    Seq::new(
        bytes.len() * 2,
        |i: int| if i % 2 == 0 { hex_digit(bytes[i / 2] as int / 16) } else { hex_digit(bytes[i / 2] as int % 16) },
    )
}

fn hex_char(n: u8) -> (c: char)
    requires
        n < 16,
    ensures
        c == hex_digit(n as int),
{
    match n {
        0 => '0', 1 => '1', 2 => '2', 3 => '3', 4 => '4', 5 => '5', 6 => '6', 7 => '7',
        8 => '8', 9 => '9', 10 => 'a', 11 => 'b', 12 => 'c', 13 => 'd', 14 => 'e', _ => 'f',
    }
}

/// Writes bytes in hexadecimal.
pub fn encode(bytes: &[u8]) -> (s: String)
    ensures
        s@ == hex_of(bytes@),
{
    let mut s = String::new();
    let mut i: usize = 0;
    assert(s@ =~= hex_of(bytes@.take(0)));
    while i < bytes.len()
        invariant
            i <= bytes@.len(),
            s@ == hex_of(bytes@.take(i as int)),
        decreases bytes@.len() - i,
    {
        let b = bytes[i];
        s.push(hex_char(b / 16));
        s.push(hex_char(b % 16));
        i = i + 1;
        proof {
            let before = bytes@.take(i - 1);
            let now = bytes@.take(i as int);
            assert forall|k: int| 0 <= k < 2 * i implies s@[k] == hex_of(now)[k] by {
                if k < 2 * (i - 1) {
                    assert(now[k / 2] == before[k / 2]);
                    assert(s@[k] == hex_of(before)[k]);
                } else {
                    assert(k / 2 == i - 1);
                }
            }
            assert(s@ =~= hex_of(now));
        }
    }
    assert(bytes@.take(i as int) =~= bytes@);
    s
}

/// Different bytes are written differently.
pub proof fn law_hex_injective(a: Seq<u8>, b: Seq<u8>)
    requires
        hex_of(a) == hex_of(b),
    ensures
        a == b,
{
    assert(hex_of(a).len() == a.len() * 2);
    assert(hex_of(b).len() == b.len() * 2);
    assert forall|i: int| 0 <= i < a.len() implies a[i] == b[i] by {
        assert(hex_of(a)[2 * i] == hex_of(b)[2 * i]);
        assert(hex_of(a)[2 * i + 1] == hex_of(b)[2 * i + 1]);
        assert((2 * i) / 2 == i && (2 * i + 1) / 2 == i);
        assert((2 * i) % 2 == 0 && (2 * i + 1) % 2 == 1);
        assert(hex_of(a)[2 * i] == hex_digit(a[i] as int / 16));
        assert(hex_of(b)[2 * i] == hex_digit(b[i] as int / 16));
        assert(hex_of(a)[2 * i + 1] == hex_digit(a[i] as int % 16));
        assert(hex_of(b)[2 * i + 1] == hex_digit(b[i] as int % 16));
        lemma_hex_digit_injective(a[i] as int / 16, b[i] as int / 16);
        lemma_hex_digit_injective(a[i] as int % 16, b[i] as int % 16);
    }
    assert(a =~= b);
}

proof fn lemma_hex_digit_injective(m: int, n: int)
    requires
        0 <= m < 16,
        0 <= n < 16,
        hex_digit(m) == hex_digit(n),
    ensures
        m == n,
{
}

// ---------------------------------------------------------------------------
// Statements
// ---------------------------------------------------------------------------
/// A value bound to a parameter of a statement.
#[derive(Debug)]
pub enum SqlValue {
    Null,
    Int(i64),
    Text(String),
}

/// An SQL statement with the values of its numbered parameters.
#[derive(Debug)]
pub struct Statement {
    pub sql: String,
    pub params: Vec<SqlValue>,
}

/// The value of an [`SqlValue`].
pub enum SqlV {
    Null,
    Int(int),
    Text(Seq<char>),
}

/// The value of a [`Statement`].
pub struct StatementV {
    pub sql: Seq<char>,
    pub params: Seq<SqlV>,
}

impl View for SqlValue {
    type V = SqlV;

    open spec fn view(&self) -> SqlV {
        match self {
            SqlValue::Null => SqlV::Null,
            SqlValue::Int(n) => SqlV::Int(*n as int),
            SqlValue::Text(s) => SqlV::Text(s@),
        }
    }
}

/// The values of a list of parameters.
pub open spec fn sql_views(params: Seq<SqlValue>) -> Seq<SqlV> {
    Seq::new(params.len(), |i: int| params[i]@)
}

impl View for Statement {
    type V = StatementV;

    open spec fn view(&self) -> StatementV {
        StatementV { sql: self.sql@, params: sql_views(self.params@) }
    }
}

/// An optional text as a parameter.
pub open spec fn sql_opt_text(s: Option<Seq<char>>) -> SqlV {
    match s {
        Some(t) => SqlV::Text(t),
        None => SqlV::Null,
    }
}

/// An optional line number as a parameter.
pub open spec fn sql_opt_line(n: Option<u32>) -> SqlV {
    match n {
        Some(line) => SqlV::Int(line as int),
        None => SqlV::Null,
    }
}

fn text_value(s: &str) -> (v: SqlValue)
    ensures
        v@ == SqlV::Text(s@),
{
    SqlValue::Text(s.to_owned())
}

fn opt_text_value(s: &Option<String>) -> (v: SqlValue)
    ensures
        v@ == sql_opt_text(opt_text(*s)),
{
    match s {
        Some(t) => SqlValue::Text(t.clone()),
        None => SqlValue::Null,
    }
}

fn opt_line_value(n: Option<u32>) -> (v: SqlValue)
    ensures
        v@ == sql_opt_line(n),
{
    match n {
        Some(line) => SqlValue::Int(line as i64),
        None => SqlValue::Null,
    }
}

/// The columns of the annotation table that a row is read from, in order.
pub const ANNOTATION_COLUMNS: &'static str =
    "id, repo_id, file_path, commit_sha, side, start_line, end_line, annotation_type, content, anchor_line, anchor_text, context_before, context_after, created_at, resolved_at";

/// An annotation that has not been stored yet.
#[derive(Debug)]
pub struct NewAnnotation {
    pub file_path: String,
    pub commit_sha: Option<String>,
    pub side: Side,
    pub start_line: u32,
    pub end_line: Option<u32>,
    pub annotation_type: AnnotationType,
    pub content: String,
    pub anchor_line: u32,
    pub anchor_text: String,
    pub context_before: String,
    pub context_after: String,
}

/// The value of a [`NewAnnotation`].
#[verifier::ext_equal]
pub struct NewAnnotationV {
    pub file_path: Seq<char>,
    pub commit_sha: Option<Seq<char>>,
    pub side: Side,
    pub start_line: u32,
    pub end_line: Option<u32>,
    pub annotation_type: AnnotationType,
    pub content: Seq<char>,
    pub anchor_line: u32,
    pub anchor_text: Seq<char>,
    pub context_before: Seq<char>,
    pub context_after: Seq<char>,
}

impl View for NewAnnotation {
    type V = NewAnnotationV;

    open spec fn view(&self) -> NewAnnotationV {
        NewAnnotationV {
            file_path: self.file_path@,
            commit_sha: opt_text(self.commit_sha),
            side: self.side,
            start_line: self.start_line,
            end_line: self.end_line,
            annotation_type: self.annotation_type,
            content: self.content@,
            anchor_line: self.anchor_line,
            anchor_text: self.anchor_text@,
            context_before: self.context_before@,
            context_after: self.context_after@,
        }
    }
}

/// The parameters that insert an annotation.
pub open spec fn insert_params(repo_id: i64, a: NewAnnotationV) -> Seq<SqlV> {
    seq![
        SqlV::Int(repo_id as int),
        SqlV::Text(a.file_path),
        sql_opt_text(a.commit_sha),
        SqlV::Text(stored_side(a.side)),
        SqlV::Int(a.start_line as int),
        sql_opt_line(a.end_line),
        SqlV::Text(stored_type(a.annotation_type)),
        SqlV::Text(a.content),
        SqlV::Int(a.anchor_line as int),
        SqlV::Text(a.anchor_text),
        SqlV::Text(a.context_before),
        SqlV::Text(a.context_after),
    ]
}

/// A row of the annotation table, its columns in the order of
/// [`ANNOTATION_COLUMNS`].
#[derive(Debug)]
pub struct AnnotationRow {
    pub id: i64,
    pub repo_id: i64,
    pub file_path: String,
    pub commit_sha: Option<String>,
    pub side: String,
    pub start_line: u32,
    pub end_line: Option<u32>,
    pub annotation_type: String,
    pub content: String,
    pub anchor_line: u32,
    pub anchor_text: String,
    pub context_before: String,
    pub context_after: String,
    pub created_at: String,
    pub resolved_at: Option<String>,
}

impl AnnotationRow {
    /// The columns as SQL values.
    pub open spec fn columns(self) -> Seq<SqlV> {
        seq![
            SqlV::Int(self.id as int),
            SqlV::Int(self.repo_id as int),
            SqlV::Text(self.file_path@),
            sql_opt_text(opt_text(self.commit_sha)),
            SqlV::Text(self.side@),
            SqlV::Int(self.start_line as int),
            sql_opt_line(self.end_line),
            SqlV::Text(self.annotation_type@),
            SqlV::Text(self.content@),
            SqlV::Int(self.anchor_line as int),
            SqlV::Text(self.anchor_text@),
            SqlV::Text(self.context_before@),
            SqlV::Text(self.context_after@),
            SqlV::Text(self.created_at@),
            sql_opt_text(opt_text(self.resolved_at)),
        ]
    }

    /// The annotation that the row stands for. A side or a type under an
    /// unknown name is read as `New` and `Comment`.
    pub open spec fn annotation(self) -> AnnotationV {
        AnnotationV {
            id: self.id,
            repo_id: self.repo_id,
            file_path: self.file_path@,
            commit_sha: opt_text(self.commit_sha),
            side: match read_side(self.side@) {
                Some(side) => side,
                None => Side::New,
            },
            start_line: self.start_line,
            end_line: self.end_line,
            annotation_type: match read_type(self.annotation_type@) {
                Some(t) => t,
                None => AnnotationType::Comment,
            },
            content: self.content@,
            anchor_line: self.anchor_line,
            anchor_text: self.anchor_text@,
            context_before: self.context_before@,
            context_after: self.context_after@,
            created_at: self.created_at@,
            resolved_at: opt_text(self.resolved_at),
        }
    }
}

/// What the annotation table holds of an annotation is what a row of it reads
/// back: from a row whose first columns are the parameters of the insert, the
/// annotation comes back field by field, under the row's id and times.
pub proof fn law_insert_read_back(repo_id: i64, a: NewAnnotationV, row: AnnotationRow)
    requires
        row.columns().subrange(1, 13) == insert_params(repo_id, a),
    ensures
        row.annotation() == (AnnotationV {
            id: row.id,
            repo_id,
            file_path: a.file_path,
            commit_sha: a.commit_sha,
            side: a.side,
            start_line: a.start_line,
            end_line: a.end_line,
            annotation_type: a.annotation_type,
            content: a.content,
            anchor_line: a.anchor_line,
            anchor_text: a.anchor_text,
            context_before: a.context_before,
            context_after: a.context_after,
            created_at: row.created_at@,
            resolved_at: opt_text(row.resolved_at),
        }),
{
    law_side_names(a.side, row.side@);
    law_type_names(a.annotation_type, row.annotation_type@);
    let c = row.columns();
    let p = insert_params(repo_id, a);
    assert forall|i: int| 0 <= i < 12 implies c[i + 1] == p[i] by {
        assert(c.subrange(1, 13)[i] == p[i]);
    }
    assert(c[1] == p[0] && c[2] == p[1] && c[3] == p[2] && c[4] == p[3] && c[5] == p[4]);
    assert(c[6] == p[5] && c[7] == p[6] && c[8] == p[7] && c[9] == p[8] && c[10] == p[9]);
    assert(c[11] == p[10] && c[12] == p[11]);
}

/// Whether columns miss one, and the statement that adds it then.
pub open spec fn column_patch(cols: Seq<String>, name: Seq<char>, sql: Seq<char>) -> Seq<Seq<char>> {
    if has_name(cols, name) {
        Seq::empty()
    } else {
        seq![sql]
    }
}

/// The statements that add the columns which an older annotation table lacks.
pub open spec fn migrations(cols: Seq<String>) -> Seq<Seq<char>> {
    column_patch(
        cols,
        "anchor_line"@,
        "ALTER TABLE annotations ADD COLUMN anchor_line INTEGER DEFAULT 0"@,
    ) + column_patch(
        cols,
        "anchor_text"@,
        "ALTER TABLE annotations ADD COLUMN anchor_text TEXT DEFAULT ''"@,
    ) + column_patch(
        cols,
        "context_before"@,
        "ALTER TABLE annotations ADD COLUMN context_before TEXT DEFAULT ''"@,
    ) + column_patch(
        cols,
        "context_after"@,
        "ALTER TABLE annotations ADD COLUMN context_after TEXT DEFAULT ''"@,
    )
}

/// The text of the query that lists the annotations of a repository, or those
/// of one of its files.
pub open spec fn list_sql(by_file: bool) -> Seq<char> {
    "SELECT "@ + ANNOTATION_COLUMNS@ + " FROM annotations WHERE repo_id = ?1"@ + (if by_file {
        " AND file_path = ?2"@
    } else {
        Seq::empty()
    }) + " ORDER BY file_path, start_line"@
}

/// The text of the query for the annotations that cover a line of a file.
pub open spec fn line_sql() -> Seq<char> {
    "SELECT "@ + ANNOTATION_COLUMNS@
        + " FROM annotations WHERE repo_id = ?1 AND file_path = ?2 AND side = ?3 AND start_line <= ?4 AND (end_line IS NULL AND start_line = ?4 OR end_line >= ?4) ORDER BY start_line"@
}

/// The text of the statement that inserts an annotation.
pub open spec fn insert_sql() -> Seq<char> {
    "INSERT INTO annotations (repo_id, file_path, commit_sha, side, start_line, end_line, annotation_type, content, anchor_line, anchor_text, context_before, context_after) VALUES (?1, ?2, ?3, ?4, ?5, ?6, ?7, ?8, ?9, ?10, ?11, ?12)"@
}

/// Inserts an annotation.
pub open spec fn insert_statement(repo_id: i64, a: NewAnnotationV) -> StatementV {
    StatementV { sql: insert_sql(), params: insert_params(repo_id, a) }
}

/// The text of the statement that moves an annotation.
pub open spec fn move_sql() -> Seq<char> {
    "UPDATE annotations SET start_line = ?1, end_line = ?2, anchor_line = ?3, anchor_text = ?4, context_before = ?5, context_after = ?6 WHERE id = ?7"@
}

/// Moves an annotation and changes its anchor.
pub open spec fn move_statement(
    id: i64,
    start_line: u32,
    end_line: Option<u32>,
    anchor_line: u32,
    anchor_text: Seq<char>,
    context_before: Seq<char>,
    context_after: Seq<char>,
) -> StatementV {
    StatementV {
        sql: move_sql(),
        params: seq![
            SqlV::Int(start_line as int),
            sql_opt_line(end_line),
            SqlV::Int(anchor_line as int),
            SqlV::Text(anchor_text),
            SqlV::Text(context_before),
            SqlV::Text(context_after),
            SqlV::Int(id as int),
        ],
    }
}

/// Lists the annotations of a repository, or those of one of its files.
pub open spec fn list_statement(repo_id: i64, file_path: Option<Seq<char>>) -> StatementV {
    StatementV {
        sql: list_sql(file_path is Some),
        params: match file_path {
            Some(path) => seq![SqlV::Int(repo_id as int), SqlV::Text(path)],
            None => seq![SqlV::Int(repo_id as int)],
        },
    }
}

/// Lists the annotations that cover a line of a file.
pub open spec fn line_statement(
    repo_id: i64,
    file_path: Seq<char>,
    line: u32,
    side: Side,
) -> StatementV {
    StatementV {
        sql: line_sql(),
        params: seq![
            SqlV::Int(repo_id as int),
            SqlV::Text(file_path),
            SqlV::Text(stored_side(side)),
            SqlV::Int(line as int),
        ],
    }
}

/// Changes the content and the type of an annotation.
pub open spec fn update_statement(
    id: i64,
    content: Seq<char>,
    annotation_type: AnnotationType,
) -> StatementV {
    StatementV {
        sql: "UPDATE annotations SET content = ?1, annotation_type = ?2 WHERE id = ?3"@,
        params: seq![
            SqlV::Text(content),
            SqlV::Text(stored_type(annotation_type)),
            SqlV::Int(id as int),
        ],
    }
}

/// Deletes an annotation.
pub open spec fn delete_statement(id: i64) -> StatementV {
    StatementV {
        sql: "DELETE FROM annotations WHERE id = ?1"@,
        params: seq![SqlV::Int(id as int)],
    }
}

/// Marks an annotation as resolved.
pub open spec fn resolve_statement(id: i64) -> StatementV {
    StatementV {
        sql: "UPDATE annotations SET resolved_at = CURRENT_TIMESTAMP WHERE id = ?1"@,
        params: seq![SqlV::Int(id as int)],
    }
}

/// Marks an annotation as unresolved.
pub open spec fn unresolve_statement(id: i64) -> StatementV {
    StatementV {
        sql: "UPDATE annotations SET resolved_at = NULL WHERE id = ?1"@,
        params: seq![SqlV::Int(id as int)],
    }
}

/// The hash under which a repository is stored.
pub open spec fn repo_hash_of(path: Seq<char>) -> Seq<char> {
    hex_of(sha256_of(encode_utf8(path)))
}

/// Deletes the annotations of a repository.
pub open spec fn clear_statement(repo_id: i64) -> StatementV {
    StatementV {
        sql: "DELETE FROM annotations WHERE repo_id = ?1"@,
        params: seq![SqlV::Int(repo_id as int)],
    }
}

/// Changes the name of a repository.
pub open spec fn rename_repo_statement(id: i64, name: Seq<char>) -> StatementV {
    StatementV {
        sql: "UPDATE repos SET display_name = ?1 WHERE id = ?2"@,
        params: seq![SqlV::Text(name), SqlV::Int(id as int)],
    }
}

/// Inserts a repository.
pub open spec fn insert_repo_statement(hash: Seq<char>, name: Option<Seq<char>>) -> StatementV {
    StatementV {
        sql: "INSERT INTO repos (repo_hash, display_name) VALUES (?1, ?2)"@,
        params: seq![SqlV::Text(hash), sql_opt_text(name)],
    }
}

/// What to do about a repository once it has been looked up.
#[derive(Debug)]
pub enum RepoStep {
    /// It is known under this id; the statement, if any, is still to be run.
    Known { id: i64, update: Option<Statement> },
    /// It is new: the statement inserts it, and its row id is the id.
    Insert(Statement),
}

/// The value of a [`RepoStep`].
pub enum RepoStepV {
    Known { id: i64, update: Option<StatementV> },
    Insert(StatementV),
}

impl View for RepoStep {
    type V = RepoStepV;

    open spec fn view(&self) -> RepoStepV {
        match self {
            RepoStep::Known { id, update } => RepoStepV::Known {
                id: *id,
                update: match update {
                    Some(s) => Some(s@),
                    None => None,
                },
            },
            RepoStep::Insert(s) => RepoStepV::Insert(s@),
        }
    }
}

/// What follows the lookup of a repository: a known one is renamed where a name
/// is given, a new one is inserted.
pub open spec fn repo_step(
    hash: Seq<char>,
    existing: Option<i64>,
    name: Option<Seq<char>>,
) -> RepoStepV {
    match existing {
        Some(id) => RepoStepV::Known {
            id,
            update: match name {
                Some(n) => Some(rename_repo_statement(id, n)),
                None => None,
            },
        },
        None => RepoStepV::Insert(insert_repo_statement(hash, name)),
    }
}

/// The statements of the annotation store.
pub struct Storage {}

impl Storage {
    /// The statements that bring the annotation table up to date, from the
    /// names of the columns it has.
    pub fn ensure_annotation_columns(cols: &[String]) -> (v: Vec<String>)
        ensures
            texts(v@) == migrations(cols@),
    {
        let mut v: Vec<String> = Vec::new();
        if !contains_name(cols, "anchor_line") {
            v.push("ALTER TABLE annotations ADD COLUMN anchor_line INTEGER DEFAULT 0".to_owned());
        }
        if !contains_name(cols, "anchor_text") {
            v.push("ALTER TABLE annotations ADD COLUMN anchor_text TEXT DEFAULT ''".to_owned());
        }
        if !contains_name(cols, "context_before") {
            v.push("ALTER TABLE annotations ADD COLUMN context_before TEXT DEFAULT ''".to_owned());
        }
        if !contains_name(cols, "context_after") {
            v.push("ALTER TABLE annotations ADD COLUMN context_after TEXT DEFAULT ''".to_owned());
        }
        assert(texts(v@) =~= migrations(cols@));
        v
    }

    /// The hash under which a repository is stored: the SHA-256 digest of its
    /// path, in hexadecimal.
    pub fn hash_repo_path(path: &str) -> (s: String)
        ensures
            s@ == repo_hash_of(path@),
            s@.len() == 64,
    {
        let digest = sha256(path.as_bytes());
        encode(digest.as_slice())
    }

    /// The query that finds a repository by its hash.
    pub fn find_repo(repo_hash: &str) -> (r: Statement)
        ensures
            r@.sql == "SELECT id FROM repos WHERE repo_hash = ?1"@,
            r@.params == seq![SqlV::Text(repo_hash@)],
    {
        let r = Statement {
            sql: "SELECT id FROM repos WHERE repo_hash = ?1".to_owned(),
            params: vec![text_value(repo_hash)],
        };
        assert(r@.params =~= seq![SqlV::Text(repo_hash@)]);
        r
    }

    /// What follows the lookup of a repository: a known one is renamed where a
    /// name is given, a new one is inserted.
    pub fn get_or_create_repo(
        repo_hash: &str,
        existing: Option<i64>,
        display_name: &Option<String>,
    ) -> (r: RepoStep)
        ensures
            r@ == repo_step(repo_hash@, existing, opt_text(*display_name)),
    {
        match existing {
            Some(id) => {
                let update = match display_name {
                    Some(name) => {
                        let s = Statement {
                            sql: "UPDATE repos SET display_name = ?1 WHERE id = ?2".to_owned(),
                            params: vec![text_value(name.as_str()), SqlValue::Int(id)],
                        };
                        assert(s@.params =~= seq![SqlV::Text(name@), SqlV::Int(id as int)]);
                        Some(s)
                    },
                    None => None,
                };
                RepoStep::Known { id, update }
            },
            None => {
                let s = Statement {
                    sql: "INSERT INTO repos (repo_hash, display_name) VALUES (?1, ?2)".to_owned(),
                    params: vec![text_value(repo_hash), opt_text_value(display_name)],
                };
                assert(s@.params =~= seq![
                    SqlV::Text(repo_hash@),
                    sql_opt_text(opt_text(*display_name)),
                ]);
                RepoStep::Insert(s)
            },
        }
    }

    /// Adds a new annotation.
    pub fn add_annotation(repo_id: i64, a: &NewAnnotation) -> (r: Statement)
        ensures
            r@ == insert_statement(repo_id, a@),
    {
        let r = Statement {
            sql:
                "INSERT INTO annotations (repo_id, file_path, commit_sha, side, start_line, end_line, annotation_type, content, anchor_line, anchor_text, context_before, context_after) VALUES (?1, ?2, ?3, ?4, ?5, ?6, ?7, ?8, ?9, ?10, ?11, ?12)".to_owned(),
            params: vec![
                SqlValue::Int(repo_id),
                text_value(a.file_path.as_str()),
                opt_text_value(&a.commit_sha),
                text_value(a.side.as_str()),
                SqlValue::Int(a.start_line as i64),
                opt_line_value(a.end_line),
                text_value(a.annotation_type.as_str()),
                text_value(a.content.as_str()),
                SqlValue::Int(a.anchor_line as i64),
                text_value(a.anchor_text.as_str()),
                text_value(a.context_before.as_str()),
                text_value(a.context_after.as_str()),
            ],
        };
        assert(r@.params =~= insert_params(repo_id, a@));
        r
    }

    /// Updates an existing annotation's content and type.
    pub fn update_annotation(id: i64, content: &str, annotation_type: AnnotationType) -> (r:
        Statement)
        ensures
            r@ == update_statement(id, content@, annotation_type),
    {
        let r = Statement {
            sql:
                "UPDATE annotations SET content = ?1, annotation_type = ?2 WHERE id = ?3".to_owned(),
            params: vec![
                text_value(content),
                text_value(annotation_type.as_str()),
                SqlValue::Int(id),
            ],
        };
        assert(r@.params =~= seq![
            SqlV::Text(content@),
            SqlV::Text(stored_type(annotation_type)),
            SqlV::Int(id as int),
        ]);
        r
    }

    /// Updates an annotation's position and anchor data.
    pub fn update_annotation_location(
        id: i64,
        start_line: u32,
        end_line: Option<u32>,
        anchor_line: u32,
        anchor_text: &str,
        context_before: &str,
        context_after: &str,
    ) -> (r: Statement)
        ensures
            r@ == move_statement(
                id,
                start_line,
                end_line,
                anchor_line,
                anchor_text@,
                context_before@,
                context_after@,
            ),
    {
        let r = Statement {
            sql:
                "UPDATE annotations SET start_line = ?1, end_line = ?2, anchor_line = ?3, anchor_text = ?4, context_before = ?5, context_after = ?6 WHERE id = ?7".to_owned(),
            params: vec![
                SqlValue::Int(start_line as i64),
                opt_line_value(end_line),
                SqlValue::Int(anchor_line as i64),
                text_value(anchor_text),
                text_value(context_before),
                text_value(context_after),
                SqlValue::Int(id),
            ],
        };
        assert(r@.params =~= seq![
            SqlV::Int(start_line as int),
            sql_opt_line(end_line),
            SqlV::Int(anchor_line as int),
            SqlV::Text(anchor_text@),
            SqlV::Text(context_before@),
            SqlV::Text(context_after@),
            SqlV::Int(id as int),
        ]);
        r
    }

    /// Deletes an annotation.
    pub fn delete_annotation(id: i64) -> (r: Statement)
        ensures
            r@ == delete_statement(id),
    {
        let r = Statement {
            sql: "DELETE FROM annotations WHERE id = ?1".to_owned(),
            params: vec![SqlValue::Int(id)],
        };
        assert(r@.params =~= seq![SqlV::Int(id as int)]);
        r
    }

    /// Lists annotations for a repo, optionally filtered by file.
    pub fn list_annotations(repo_id: i64, file_path: Option<&str>) -> (r: Statement)
        ensures
            r@ == list_statement(
                repo_id,
                match file_path {
                    Some(path) => Some(path@),
                    None => None,
                },
            ),
    {
        let mut sql = "SELECT ".to_owned();
        sql.push_str(ANNOTATION_COLUMNS);
        sql.push_str(" FROM annotations WHERE repo_id = ?1");
        let mut params: Vec<SqlValue> = vec![SqlValue::Int(repo_id)];
        if let Some(path) = file_path {
            sql.push_str(" AND file_path = ?2");
            params.push(text_value(path));
        }
        sql.push_str(" ORDER BY file_path, start_line");
        let r = Statement { sql, params };
        assert(r@.sql =~= list_sql(file_path is Some));
        assert(file_path matches Some(path) ==> r@.params =~= seq![
            SqlV::Int(repo_id as int),
            SqlV::Text(path@),
        ]);
        assert(file_path is None ==> r@.params =~= seq![SqlV::Int(repo_id as int)]);
        r
    }

    /// Gets annotations for a specific line in a file.
    pub fn get_annotations_for_line(repo_id: i64, file_path: &str, line: u32, side: Side) -> (r:
        Statement)
        ensures
            r@ == line_statement(repo_id, file_path@, line, side),
    {
        let mut sql = "SELECT ".to_owned();
        sql.push_str(ANNOTATION_COLUMNS);
        sql.push_str(
            " FROM annotations WHERE repo_id = ?1 AND file_path = ?2 AND side = ?3 AND start_line <= ?4 AND (end_line IS NULL AND start_line = ?4 OR end_line >= ?4) ORDER BY start_line",
        );
        let r = Statement {
            sql,
            params: vec![
                SqlValue::Int(repo_id),
                text_value(file_path),
                text_value(side.as_str()),
                SqlValue::Int(line as i64),
            ],
        };
        assert(r@.params =~= seq![
            SqlV::Int(repo_id as int),
            SqlV::Text(file_path@),
            SqlV::Text(stored_side(side)),
            SqlV::Int(line as int),
        ]);
        r
    }

    /// Clears all annotations for a repo.
    pub fn clear_all(repo_id: i64) -> (r: Statement)
        ensures
            r@ == clear_statement(repo_id),
    {
        let r = Statement {
            sql: "DELETE FROM annotations WHERE repo_id = ?1".to_owned(),
            params: vec![SqlValue::Int(repo_id)],
        };
        assert(r@.params =~= seq![SqlV::Int(repo_id as int)]);
        r
    }

    /// Mark an annotation as resolved.
    pub fn resolve_annotation(id: i64) -> (r: Statement)
        ensures
            r@ == resolve_statement(id),
    {
        let r = Statement {
            sql: "UPDATE annotations SET resolved_at = CURRENT_TIMESTAMP WHERE id = ?1".to_owned(),
            params: vec![SqlValue::Int(id)],
        };
        assert(r@.params =~= seq![SqlV::Int(id as int)]);
        r
    }

    /// Mark an annotation as unresolved.
    pub fn unresolve_annotation(id: i64) -> (r: Statement)
        ensures
            r@ == unresolve_statement(id),
    {
        let r = Statement {
            sql: "UPDATE annotations SET resolved_at = NULL WHERE id = ?1".to_owned(),
            params: vec![SqlValue::Int(id)],
        };
        assert(r@.params =~= seq![SqlV::Int(id as int)]);
        r
    }

    /// The annotation that a row stands for.
    pub fn row_to_annotation(row: AnnotationRow) -> (r: Annotation)
        ensures
            r@ == row.annotation(),
    {
        let side = match Side::from_str(row.side.as_str()) {
            Some(side) => side,
            None => Side::New,
        };
        let annotation_type = match AnnotationType::from_str(row.annotation_type.as_str()) {
            Some(t) => t,
            None => AnnotationType::Comment,
        };
        Annotation {
            id: row.id,
            repo_id: row.repo_id,
            file_path: row.file_path,
            commit_sha: row.commit_sha,
            side,
            start_line: row.start_line,
            end_line: row.end_line,
            annotation_type,
            content: row.content,
            anchor_line: row.anchor_line,
            anchor_text: row.anchor_text,
            context_before: row.context_before,
            context_after: row.context_after,
            created_at: row.created_at,
            resolved_at: row.resolved_at,
        }
    }
}

} // verus!
