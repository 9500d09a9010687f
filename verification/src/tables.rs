//! What the statements of the annotation store do to its tables.
use vstd::prelude::*;

use crate::storage::{
    clear_statement, delete_statement, insert_params, insert_repo_statement, insert_sql,
    insert_statement, law_insert_read_back, line_sql, line_statement, list_sql, list_statement,
    migrations, move_sql, move_statement, rename_repo_statement, repo_hash_of, repo_step,
    resolve_statement, sql_opt_line, sql_opt_text, stored_side, unresolve_statement,
    update_statement, AnnotationRow, AnnotationType, AnnotationV, NewAnnotationV, RepoStepV, Side,
    SqlV, StatementV, ANNOTATION_COLUMNS,
};
use crate::text::{has_name, opt_text, text_lt};

verus! {

/// A row of the table of repositories.
pub struct RepoRow {
    pub hash: SqlV,
    pub name: SqlV,
}

/// The two tables: their rows by their ids. The columns of an annotation are
/// those of [`crate::storage::ANNOTATION_COLUMNS`].
#[verifier::ext_equal]
pub struct Tables {
    pub repos: Map<int, RepoRow>,
    pub annotations: Map<int, Seq<SqlV>>,
}

/// The column of an annotation that says whether it is resolved.
pub open spec fn resolved_column() -> int {
    14
}

/// The id in the last parameter of a statement.
pub open spec fn last_id(s: StatementV) -> int {
    match s.params.last() {
        SqlV::Int(id) => id,
        _ => -1,
    }
}

/// Whether the lines of an annotation are in order: they count from one, and the
/// last one, if there is one, does not come before the first.
pub open spec fn lines_checked(start: SqlV, end: SqlV) -> bool {
    start matches SqlV::Int(first) && first > 0 && match end {
        SqlV::Null => true,
        SqlV::Int(last) => last >= first,
        SqlV::Text(_) => false,
    }
}

/// Whether an annotation can have a type.
pub open spec fn type_checked(t: SqlV) -> bool {
    t == SqlV::Text("comment"@) || t == SqlV::Text("todo"@) || t == SqlV::Text("ai_prompt"@)
}

/// Whether the values of a statement are in order, whatever the tables hold: the
/// lines, the type, and that what has to be there is.
pub open spec fn in_order(s: StatementV) -> bool {
    if s.sql == insert_sql() {
        &&& lines_checked(s.params[4], s.params[5])
        &&& type_checked(s.params[6])
        &&& s.params[1] != SqlV::Null
        &&& s.params[3] != SqlV::Null
        &&& s.params[7] != SqlV::Null
    } else if s.sql == move_sql() {
        lines_checked(s.params[0], s.params[1])
    } else if s.sql == update_statement(0, Seq::empty(), AnnotationType::Comment).sql {
        s.params[0] != SqlV::Null && type_checked(s.params[1])
    } else if s.sql == insert_repo_statement(Seq::empty(), None).sql {
        s.params[0] != SqlV::Null
    } else {
        true
    }
}

/// Whether a line of a file is among those from `start` to `end`, or is the one
/// line where there is no end.
pub open spec fn holds_line(start: SqlV, end: SqlV, line: SqlV) -> bool {
    match (start, line) {
        (SqlV::Int(first), SqlV::Int(n)) => first <= n && match end {
            SqlV::Null => first == n,
            SqlV::Int(last) => last >= n,
            SqlV::Text(_) => false,
        },
        _ => false,
    }
}

/// Whether a query asks for a row of the annotations.
pub open spec fn selects(s: StatementV, row: Seq<SqlV>) -> bool {
    if s.sql == list_sql(false) {
        row[1] == s.params[0]
    } else if s.sql == list_sql(true) {
        row[1] == s.params[0] && row[2] == s.params[1]
    } else if s.sql == line_sql() {
        &&& row[1] == s.params[0]
        &&& row[2] == s.params[1]
        &&& row[4] == s.params[2]
        &&& holds_line(row[5], row[6], s.params[3])
    } else {
        false
    }
}

/// Whether a number comes before another.
pub open spec fn number_before(a: SqlV, b: SqlV) -> bool {
    match (a, b) {
        (SqlV::Int(m), SqlV::Int(n)) => m < n,
        _ => false,
    }
}

/// Whether a query gives a row before another: a list by the path and then by the
/// first line, the annotations of a line by their first line.
pub open spec fn comes_before(s: StatementV, a: Seq<SqlV>, b: Seq<SqlV>) -> bool {
    if s.sql == line_sql() {
        number_before(a[5], b[5])
    } else {
        match (a[2], b[2]) {
            (SqlV::Text(p), SqlV::Text(q)) => text_lt(p, q) || (p == q && number_before(
                a[5],
                b[5],
            )),
            _ => false,
        }
    }
}

impl Tables {
    /// With a column of an annotation changed, if there is that annotation.
    pub open spec fn with_column(self, id: int, column: int, v: SqlV) -> Tables {
        if self.annotations.contains_key(id) {
            Tables {
                annotations: self.annotations.insert(id, self.annotations[id].update(column, v)),
                ..self
            }
        } else {
            self
        }
    }

    /// Whether the constraints of the tables let a statement through: its values
    /// are in order, a repository that is inserted has a hash that no other has,
    /// and an annotation belongs to a repository that is there.
    pub open spec fn accepts(self, s: StatementV) -> bool {
        &&& in_order(s)
        &&& s.sql == insert_repo_statement(Seq::empty(), None).sql ==> forall|id: int| #[trigger]
            self.repos.contains_key(id) ==> self.repos[id].hash != s.params[0]
        &&& s.sql == insert_sql() ==> (s.params[0] matches SqlV::Int(id) && self.repos.contains_key(
            id,
        ))
    }

    /// Once a statement was handed to the store, at a time. One that is not
    /// accepted is an error and changes nothing. A row that a statement inserts
    /// gets an id that no row has. Statements that are not known here only read.
    pub open spec fn ran(self, s: StatementV, row_id: int, now: Seq<char>) -> Tables {
        if self.accepts(s) {
            self.changed(s, row_id, now)
        } else {
            self
        }
    }

    /// What a statement that is accepted makes of the tables.
    pub open spec fn changed(self, s: StatementV, row_id: int, now: Seq<char>) -> Tables {
        if s.sql == resolve_statement(0).sql {
            self.with_column(last_id(s), resolved_column(), SqlV::Text(now))
        } else if s.sql == unresolve_statement(0).sql {
            self.with_column(last_id(s), resolved_column(), SqlV::Null)
        } else if s.sql == insert_repo_statement(Seq::empty(), None).sql {
            Tables {
                repos: self.repos.insert(row_id, RepoRow { hash: s.params[0], name: s.params[1] }),
                ..self
            }
        } else if s.sql == rename_repo_statement(0, Seq::empty()).sql {
            if self.repos.contains_key(last_id(s)) {
                Tables {
                    repos: self.repos.insert(
                        last_id(s),
                        RepoRow { name: s.params[0], ..self.repos[last_id(s)] },
                    ),
                    ..self
                }
            } else {
                self
            }
        } else if s.sql == delete_statement(0).sql {
            Tables { annotations: self.annotations.remove(last_id(s)), ..self }
        } else if s.sql == clear_statement(0).sql {
            Tables {
                annotations: self.annotations.restrict(
                    Set::new(|id: int| self.annotations[id][1] != s.params[0]),
                ),
                ..self
            }
        } else if s.sql == update_statement(0, Seq::empty(), AnnotationType::Comment).sql {
            self.with_column(last_id(s), 8, s.params[0]).with_column(last_id(s), 7, s.params[1])
        } else if s.sql == move_sql() {
            let id = last_id(s);
            self.with_column(id, 5, s.params[0]).with_column(id, 6, s.params[1]).with_column(
                id,
                9,
                s.params[2],
            ).with_column(id, 10, s.params[3]).with_column(id, 11, s.params[4]).with_column(
                id,
                12,
                s.params[5],
            )
        } else if s.sql == insert_sql() {
            Tables {
                annotations: self.annotations.insert(
                    row_id,
                    seq![SqlV::Int(row_id)] + s.params + seq![SqlV::Text(now), SqlV::Null],
                ),
                ..self
            }
        } else {
            self
        }
    }

    /// Whether these are the ids of the rows that a query gives, in an order that
    /// it can give them in: each row that it asks for, once.
    pub open spec fn answers(self, s: StatementV, ids: Seq<int>) -> bool {
        &&& ids.no_duplicates()
        &&& forall|id: int| #[trigger]
            ids.contains(id) <==> self.annotations.contains_key(id) && selects(
                s,
                self.annotations[id],
            )
        &&& forall|i: int, j: int|
            0 <= i < j < ids.len() ==> !comes_before(
                s,
                self.annotations[#[trigger] ids[j]],
                self.annotations[#[trigger] ids[i]],
            )
    }

    /// The annotations of a repository.
    pub open spec fn of_repo(self, repo_id: int) -> Set<int> {
        self.annotations.dom().filter(|id: int| self.annotations[id][1] == SqlV::Int(repo_id))
    }

    /// Whether every annotation has its columns, its lines in order and a type that
    /// it can have.
    pub open spec fn rows_in_order(self) -> bool {
        forall|id: int| #[trigger]
            self.annotations.contains_key(id) ==> self.annotations[id].len() == 15 && lines_checked(
                self.annotations[id][5],
                self.annotations[id][6],
            ) && type_checked(self.annotations[id][7])
    }

    /// Whether no two repositories have one hash.
    pub open spec fn unique_hashes(self) -> bool {
        forall|i: int, j: int| #[trigger]
            self.repos.contains_key(i) && #[trigger] self.repos.contains_key(j)
                && self.repos[i].hash == self.repos[j].hash ==> i == j
    }

    /// Whether a repository has a hash.
    pub open spec fn has_hash(self, id: int, hash: Seq<char>) -> bool {
        self.repos.contains_key(id) && self.repos[id].hash == SqlV::Text(hash)
    }

    /// The repository that is found by a hash.
    pub open spec fn found(self, hash: Seq<char>) -> Option<int> {
        if exists|id: int| self.has_hash(id, hash) {
            Some(choose|id: int| self.has_hash(id, hash))
        } else {
            None
        }
    }

    /// Looking a repository up, and doing what follows: its id, and the tables
    /// then. `fresh` is the id of a row that is inserted.
    pub open spec fn with_repo(
        self,
        path: Seq<char>,
        name: Option<Seq<char>>,
        fresh: i64,
        now: Seq<char>,
    ) -> (Tables, int) {
        let hash = repo_hash_of(path);
        let existing: Option<i64> = match self.found(hash) {
            Some(id) => Some(id as i64),
            None => None,
        };
        match repo_step(hash, existing, name) {
            RepoStepV::Known { id, update: Some(s) } => (self.ran(s, fresh as int, now), id as int),
            RepoStepV::Known { id, update: None } => (self, id as int),
            RepoStepV::Insert(s) => (self.ran(s, fresh as int, now), fresh as int),
        }
    }

    /// The tables when the database is opened again. Tables that are there stay;
    /// columns that are missing are added, which changes rows.
    pub open spec fn reopened(self, cols: Seq<String>, patched: Tables) -> Tables {
        if migrations(cols).len() == 0 {
            self
        } else {
            patched
        }
    }
}

/// The texts of the statements have different lengths, so no two of them are
/// the same.
proof fn lemma_texts()
    ensures
        resolve_statement(0).sql.len() == 68,
        unresolve_statement(0).sql.len() == 55,
        rename_repo_statement(0, Seq::empty()).sql.len() == 48,
        insert_repo_statement(Seq::empty(), None).sql.len() == 59,
        delete_statement(0).sql.len() == 37,
        clear_statement(0).sql.len() == 42,
        update_statement(0, Seq::empty(), AnnotationType::Comment).sql.len() == 71,
        move_sql().len() == 144,
        insert_sql().len() == 226,
        ANNOTATION_COLUMNS@.len() == 170,
        list_sql(false).len() == ANNOTATION_COLUMNS@.len() + 74,
        list_sql(true).len() == ANNOTATION_COLUMNS@.len() + 93,
        line_sql().len() == ANNOTATION_COLUMNS@.len() + 178,
{
    reveal_strlit("UPDATE annotations SET resolved_at = CURRENT_TIMESTAMP WHERE id = ?1");
    reveal_strlit("UPDATE annotations SET resolved_at = NULL WHERE id = ?1");
    reveal_strlit("UPDATE repos SET display_name = ?1 WHERE id = ?2");
    reveal_strlit("INSERT INTO repos (repo_hash, display_name) VALUES (?1, ?2)");
    reveal_strlit("DELETE FROM annotations WHERE id = ?1");
    reveal_strlit("DELETE FROM annotations WHERE repo_id = ?1");
    reveal_strlit("UPDATE annotations SET content = ?1, annotation_type = ?2 WHERE id = ?3");
    reveal_strlit(
        "UPDATE annotations SET start_line = ?1, end_line = ?2, anchor_line = ?3, anchor_text = ?4, context_before = ?5, context_after = ?6 WHERE id = ?7",
    );
    reveal_strlit(
        "INSERT INTO annotations (repo_id, file_path, commit_sha, side, start_line, end_line, annotation_type, content, anchor_line, anchor_text, context_before, context_after) VALUES (?1, ?2, ?3, ?4, ?5, ?6, ?7, ?8, ?9, ?10, ?11, ?12)",
    );
    reveal_strlit(
        "id, repo_id, file_path, commit_sha, side, start_line, end_line, annotation_type, content, anchor_line, anchor_text, context_before, context_after, created_at, resolved_at",
    );
    reveal_strlit("SELECT ");
    reveal_strlit(" FROM annotations WHERE repo_id = ?1");
    reveal_strlit(" AND file_path = ?2");
    reveal_strlit(" ORDER BY file_path, start_line");
    reveal_strlit(
        " FROM annotations WHERE repo_id = ?1 AND file_path = ?2 AND side = ?3 AND start_line <= ?4 AND (end_line IS NULL AND start_line = ?4 OR end_line >= ?4) ORDER BY start_line",
    );
}

/// Resolving an annotation changes that it is resolved, and nothing else of any
/// annotation. Unresolving it gives the tables back, and does nothing a second
/// time.
pub proof fn law_unresolve_undoes(t: Tables, id: i64, now: Seq<char>, later: Seq<char>, row_id: int)
    requires
        t.annotations.contains_key(id as int),
        t.annotations[id as int].len() == 15,
        t.annotations[id as int][resolved_column()] == SqlV::Null,
    ensures
        ({
            let resolved = t.ran(resolve_statement(id), row_id, now);
            let again = resolved.ran(unresolve_statement(id), row_id, later);
            &&& resolved.repos == t.repos
            &&& resolved.annotations == t.annotations.insert(
                id as int,
                t.annotations[id as int].update(resolved_column(), SqlV::Text(now)),
            )
            &&& again == t
            &&& again.ran(unresolve_statement(id), row_id, later) == t
        }),
{
    lemma_texts();
    let resolved = t.ran(resolve_statement(id), row_id, now);
    let again = resolved.ran(unresolve_statement(id), row_id, later);
    let row = t.annotations[id as int];
    assert(row.update(resolved_column(), SqlV::Text(now)).update(resolved_column(), SqlV::Null)
        =~= row);
    assert(row.update(resolved_column(), SqlV::Null) =~= row);
    assert(again.annotations =~= t.annotations);
    assert(again =~= t);
    assert(again.ran(unresolve_statement(id), row_id, later).annotations =~= t.annotations);
    assert(again.ran(unresolve_statement(id), row_id, later) =~= t);
}

/// A repository that was looked up is found again under its id, and only it is.
/// A row is added only where none has the hash. Of a repository that is there,
/// the name changes where one is given, and nothing else. No annotation changes.
pub proof fn law_repo_found_again(
    t: Tables,
    path: Seq<char>,
    other: Seq<char>,
    id: int,
    name: Option<Seq<char>>,
    fresh: i64,
    now: Seq<char>,
)
    requires
        t.unique_hashes(),
        t.has_hash(id, repo_hash_of(path)),
        forall|i: int| #[trigger] t.repos.contains_key(i) ==> i64::MIN <= i <= i64::MAX,
        !t.repos.contains_key(fresh as int),
        repo_hash_of(other) == repo_hash_of(path) ==> other == path,
    ensures
        ({
            let (u, found) = t.with_repo(other, name, fresh, now);
            &&& found == id <==> other == path
            &&& u.has_hash(found, repo_hash_of(other))
            &&& u.unique_hashes()
            &&& u.annotations == t.annotations
            &&& u.has_hash(id, repo_hash_of(path))
            &&& if t.found(repo_hash_of(other)) is None {
                u.repos == t.repos.insert(
                    fresh as int,
                    RepoRow { hash: SqlV::Text(repo_hash_of(other)), name: sql_opt_text(name) },
                )
            } else {
                u.repos == (match name {
                    Some(n) => t.repos.insert(
                        found,
                        RepoRow { name: SqlV::Text(n), ..t.repos[found] },
                    ),
                    None => t.repos,
                })
            }
        }),
{
    lemma_texts();
    let hash = repo_hash_of(other);
    let (u, found) = t.with_repo(other, name, fresh, now);
    match t.found(hash) {
        Some(i) => {
            assert(t.has_hash(i, hash));
            assert(t.repos.contains_key(i));
            assert(found == i);
            if other == path {
                assert(t.repos.contains_key(i) && t.repos.contains_key(id));
            }
            match name {
                Some(n) => {
                    assert(rename_repo_statement(found as i64, n).params[0] == SqlV::Text(n));
                    assert(last_id(rename_repo_statement(found as i64, n)) == found);
                },
                None => {},
            }
        },
        None => {
            assert(found == fresh);
            if other == path {
                assert(t.has_hash(id, hash));
            }
            assert forall|i: int| #[trigger] u.repos.contains_key(i) && i != fresh implies
                u.repos[i].hash != SqlV::Text(hash) by {
                assert(!t.has_hash(i, hash));
            }
        },
    }
}

/// Looking a repository up for the first time gives it an id under which it is
/// there.
pub proof fn law_repo_created(
    t: Tables,
    path: Seq<char>,
    name: Option<Seq<char>>,
    fresh: i64,
    now: Seq<char>,
)
    requires
        t.unique_hashes(),
        forall|i: int| #[trigger] t.repos.contains_key(i) ==> i64::MIN <= i <= i64::MAX,
        !t.repos.contains_key(fresh as int),
    ensures
        ({
            let (u, id) = t.with_repo(path, name, fresh, now);
            &&& u.has_hash(id, repo_hash_of(path))
            &&& u.unique_hashes()
            &&& u.annotations == t.annotations
        }),
{
    lemma_texts();
    let hash = repo_hash_of(path);
    let (u, id) = t.with_repo(path, name, fresh, now);
    match t.found(hash) {
        Some(i) => {
            assert(t.has_hash(i, hash));
            match name {
                Some(n) => {
                    assert(last_id(rename_repo_statement(id as i64, n)) == id);
                },
                None => {},
            }
        },
        None => {
            assert forall|i: int| #[trigger] u.repos.contains_key(i) && i != fresh implies
                u.repos[i].hash != SqlV::Text(hash) by {
                assert(!t.has_hash(i, hash));
            }
        },
    }
}

/// Whether a table has the columns that were added to it over time.
pub open spec fn up_to_date(cols: Seq<String>) -> bool {
    &&& has_name(cols, "anchor_line"@)
    &&& has_name(cols, "anchor_text"@)
    &&& has_name(cols, "context_before"@)
    &&& has_name(cols, "context_after"@)
}

/// Whether the lines of an annotation are in order.
pub open spec fn lines_in_order(start_line: u32, end_line: Option<u32>) -> bool {
    start_line > 0 && (end_line matches Some(end) ==> end >= start_line)
}

/// A statement that the constraints do not let through changes nothing.
pub proof fn law_refused_changes_nothing(t: Tables, s: StatementV, row_id: int, now: Seq<char>)
    requires
        !t.accepts(s),
    ensures
        t.ran(s, row_id, now) == t,
{
}

/// Whatever is stored, every annotation has its lines in order and a type that it
/// can have.
pub proof fn law_rows_stay_in_order(t: Tables, s: StatementV, row_id: int, now: Seq<char>)
    requires
        t.rows_in_order(),
        s.sql == insert_sql() ==> s.params.len() == 12,
    ensures
        t.ran(s, row_id, now).rows_in_order(),
{
    lemma_texts();
    let u = t.ran(s, row_id, now);
    assert forall|id: int| #[trigger] u.annotations.contains_key(id) implies u.annotations[id].len()
        == 15 && lines_checked(u.annotations[id][5], u.annotations[id][6]) && type_checked(
        u.annotations[id][7],
    ) by {
        if t.annotations.contains_key(id) {
            assert(lines_checked(t.annotations[id][5], t.annotations[id][6]));
        }
    }
}

/// The queries change nothing.
pub proof fn law_queries_only_read(
    t: Tables,
    repo_id: i64,
    file_path: Option<Seq<char>>,
    path: Seq<char>,
    line: u32,
    side: Side,
    row_id: int,
    now: Seq<char>,
)
    ensures
        t.ran(list_statement(repo_id, file_path), row_id, now) == t,
        t.ran(line_statement(repo_id, path, line, side), row_id, now) == t,
{
    lemma_texts();
}

/// Storing an annotation is refused where its first line is zero, where its last
/// line comes before the first, and where its repository is not there; and then
/// nothing changes. Otherwise exactly one row is added, under its id, and nothing
/// else changes.
pub proof fn law_annotation_added(
    t: Tables,
    repo_id: i64,
    a: NewAnnotationV,
    row_id: int,
    now: Seq<char>,
)
    requires
        !t.annotations.contains_key(row_id),
    ensures
        ({
            let s = insert_statement(repo_id, a);
            let u = t.ran(s, row_id, now);
            &&& t.accepts(s) <==> lines_in_order(a.start_line, a.end_line) && t.repos.contains_key(
                repo_id as int,
            )
            &&& !t.accepts(s) ==> u == t
            &&& t.accepts(s) ==> {
                &&& u.repos == t.repos
                &&& u.annotations == t.annotations.insert(
                    row_id,
                    seq![SqlV::Int(row_id)] + insert_params(repo_id, a) + seq![
                        SqlV::Text(now),
                        SqlV::Null,
                    ],
                )
                &&& u.annotations.remove(row_id) == t.annotations
            }
        }),
{
    lemma_texts();
    let s = insert_statement(repo_id, a);
    let u = t.ran(s, row_id, now);
    if t.accepts(s) {
        assert(u.annotations.remove(row_id) =~= t.annotations);
    }
}

/// Moving an annotation is refused where its first line would be zero or its last
/// line would come before the first; and then nothing changes. Otherwise the six
/// columns of its place change, and nothing else of it or of any other row.
/// Moving an annotation that is not there changes nothing.
pub proof fn law_annotation_moved(
    t: Tables,
    id: i64,
    start_line: u32,
    end_line: Option<u32>,
    anchor_line: u32,
    anchor_text: Seq<char>,
    context_before: Seq<char>,
    context_after: Seq<char>,
    row_id: int,
    now: Seq<char>,
)
    requires
        t.annotations.contains_key(id as int) ==> t.annotations[id as int].len() == 15,
    ensures
        ({
            let s = move_statement(
                id,
                start_line,
                end_line,
                anchor_line,
                anchor_text,
                context_before,
                context_after,
            );
            let u = t.ran(s, row_id, now);
            let moved = |column: int|
                if column == 5 {
                    SqlV::Int(start_line as int)
                } else if column == 6 {
                    sql_opt_line(end_line)
                } else if column == 9 {
                    SqlV::Int(anchor_line as int)
                } else if column == 10 {
                    SqlV::Text(anchor_text)
                } else if column == 11 {
                    SqlV::Text(context_before)
                } else if column == 12 {
                    SqlV::Text(context_after)
                } else {
                    t.annotations[id as int][column]
                };
            &&& t.accepts(s) <==> lines_in_order(start_line, end_line)
            &&& u.repos == t.repos
            &&& if t.accepts(s) && t.annotations.contains_key(id as int) {
                u.annotations == t.annotations.insert(id as int, Seq::new(15, moved))
            } else {
                u.annotations == t.annotations
            }
        }),
{
    lemma_texts();
    let s = move_statement(
        id,
        start_line,
        end_line,
        anchor_line,
        anchor_text,
        context_before,
        context_after,
    );
    let u = t.ran(s, row_id, now);
    let key = id as int;
    assert(last_id(s) == key);
    if t.accepts(s) && t.annotations.contains_key(key) {
        let row = t.annotations[key];
        let six = row.update(5, s.params[0]).update(6, s.params[1]).update(9, s.params[2]).update(
            10,
            s.params[3],
        ).update(11, s.params[4]).update(12, s.params[5]);
        assert(u.annotations =~= t.annotations.insert(key, six));
        let moved = |column: int|
            if column == 5 {
                SqlV::Int(start_line as int)
            } else if column == 6 {
                sql_opt_line(end_line)
            } else if column == 9 {
                SqlV::Int(anchor_line as int)
            } else if column == 10 {
                SqlV::Text(anchor_text)
            } else if column == 11 {
                SqlV::Text(context_before)
            } else if column == 12 {
                SqlV::Text(context_after)
            } else {
                t.annotations[id as int][column]
            };
        assert(six =~= Seq::new(15, moved));
    }
}

/// An annotation that was stored is listed once the database is opened again:
/// exactly once, in the list of its repository and in that of its file. Its row
/// reads back field by field, under its id and unresolved. No other row has
/// changed.
pub proof fn law_annotation_persists(
    t: Tables,
    repo_id: i64,
    a: NewAnnotationV,
    id: i64,
    now: Seq<char>,
    cols: Seq<String>,
    patched: Tables,
    row: AnnotationRow,
    ids: Seq<int>,
    by_file: bool,
)
    requires
        !t.annotations.contains_key(id as int),
        t.accepts(insert_statement(repo_id, a)),
        up_to_date(cols),
        ({
            let u = t.ran(insert_statement(repo_id, a), id as int, now).reopened(cols, patched);
            &&& row.columns() == u.annotations[id as int]
            &&& u.answers(
                list_statement(
                    repo_id,
                    if by_file {
                        Some(a.file_path)
                    } else {
                        None
                    },
                ),
                ids,
            )
        }),
    ensures
        ({
            let u = t.ran(insert_statement(repo_id, a), id as int, now).reopened(cols, patched);
            &&& u.annotations.contains_key(id as int)
            &&& u.annotations.remove(id as int) == t.annotations
            &&& u.repos == t.repos
            &&& exists|i: int| 0 <= i < ids.len() && #[trigger] ids[i] == id
            &&& forall|i: int, j: int|
                0 <= i < ids.len() && 0 <= j < ids.len() && #[trigger] ids[i] == id
                    && #[trigger] ids[j] == id ==> i == j
            &&& row.annotation() == (AnnotationV {
                id,
                repo_id,
                file_path: a.file_path,
                commit_sha: a.commit_sha,
                side: a.side,
                start_line: a.start_line,
                end_line: a.end_line,
                annotation_type: a.annotation_type,
                content: a.content,
                anchor_line: a.anchor_line,
                anchor_text: a.anchor_text,
                context_before: a.context_before,
                context_after: a.context_after,
                created_at: now,
                resolved_at: None,
            })
        }),
{
    lemma_texts();
    let s = insert_statement(repo_id, a);
    let p = insert_params(repo_id, a);
    let stored = seq![SqlV::Int(id as int)] + p + seq![SqlV::Text(now), SqlV::Null];
    assert(migrations(cols) =~= Seq::empty());
    let u = t.ran(s, id as int, now);
    assert(u.annotations[id as int] == stored);
    assert(u.annotations.remove(id as int) =~= t.annotations);
    assert(row.columns().subrange(1, 13) =~= p);
    law_insert_read_back(repo_id, a, row);
    assert(row.columns()[0] == stored[0]);
    assert(row.columns()[13] == stored[13]);
    assert(row.columns()[14] == stored[14]);
    assert(sql_opt_text(opt_text(row.resolved_at)) == SqlV::Null);
    assert(stored[1] == SqlV::Int(repo_id as int));
    assert(stored[2] == SqlV::Text(a.file_path));
    assert(ids.contains(id as int));
}

/// The list of a repository, or of one of its files, holds the annotations that
/// belong to it.
pub proof fn law_listed(
    t: Tables,
    repo_id: i64,
    file_path: Option<Seq<char>>,
    ids: Seq<int>,
    row: AnnotationRow,
)
    requires
        t.annotations.contains_key(row.id as int),
        row.columns() == t.annotations[row.id as int],
        t.answers(list_statement(repo_id, file_path), ids),
    ensures
        ids.contains(row.id as int) <==> row.repo_id == repo_id && (file_path matches Some(path)
            ==> row.file_path@ == path),
{
    lemma_texts();
    let c = row.columns();
    assert(c[1] == SqlV::Int(row.repo_id as int));
    assert(c[2] == SqlV::Text(row.file_path@));
}

/// A list is ordered by the paths, and for one path by the first lines.
pub proof fn law_list_ordered(
    t: Tables,
    repo_id: i64,
    file_path: Option<Seq<char>>,
    ids: Seq<int>,
    i: int,
    j: int,
    a: AnnotationRow,
    b: AnnotationRow,
)
    requires
        t.answers(list_statement(repo_id, file_path), ids),
        0 <= i < j < ids.len(),
        a.columns() == t.annotations[ids[i]],
        b.columns() == t.annotations[ids[j]],
    ensures
        !text_lt(b.file_path@, a.file_path@),
        a.file_path@ == b.file_path@ ==> a.start_line <= b.start_line,
{
    lemma_texts();
    assert(a.columns()[2] == SqlV::Text(a.file_path@));
    assert(b.columns()[2] == SqlV::Text(b.file_path@));
    assert(a.columns()[5] == SqlV::Int(a.start_line as int));
    assert(b.columns()[5] == SqlV::Int(b.start_line as int));
}

/// The query for a line gives the annotations of its side of the file that cover
/// it.
pub proof fn law_line_covered(
    t: Tables,
    repo_id: i64,
    file_path: Seq<char>,
    line: u32,
    side: Side,
    ids: Seq<int>,
    row: AnnotationRow,
)
    requires
        t.annotations.contains_key(row.id as int),
        row.columns() == t.annotations[row.id as int],
        t.answers(line_statement(repo_id, file_path, line, side), ids),
    ensures
        ids.contains(row.id as int) <==> row.repo_id == repo_id && row.file_path@ == file_path
            && row.side@ == stored_side(side) && row.annotation().covers(line),
{
    lemma_texts();
    let c = row.columns();
    assert(c[1] == SqlV::Int(row.repo_id as int));
    assert(c[2] == SqlV::Text(row.file_path@));
    assert(c[4] == SqlV::Text(row.side@));
    assert(c[5] == SqlV::Int(row.start_line as int));
    assert(c[6] == sql_opt_line(row.end_line));
}

/// Clearing a repository deletes its annotations, as many as there are of it, and
/// no other.
pub proof fn law_cleared(t: Tables, repo_id: i64, row_id: int, now: Seq<char>)
    requires
        t.annotations.dom().finite(),
    ensures
        ({
            let u = t.ran(clear_statement(repo_id), row_id, now);
            &&& u.repos == t.repos
            &&& u.annotations.dom() == t.annotations.dom().difference(t.of_repo(repo_id as int))
            &&& forall|id: int| #[trigger]
                u.annotations.contains_key(id) ==> u.annotations[id] == t.annotations[id]
            &&& u.of_repo(repo_id as int).len() == 0
            &&& t.of_repo(repo_id as int).len() + u.annotations.dom().len()
                == t.annotations.dom().len()
        }),
{
    lemma_texts();
    let s = clear_statement(repo_id);
    let u = t.ran(s, row_id, now);
    let gone = t.of_repo(repo_id as int);
    let all = t.annotations.dom();
    assert(s.params[0] == SqlV::Int(repo_id as int));
    assert(u.annotations.dom() =~= all.difference(gone));
    assert(u.of_repo(repo_id as int) =~= Set::empty());
    all.lemma_len_filter(|id: int| t.annotations[id][1] == SqlV::Int(repo_id as int));
    vstd::set_lib::lemma_set_disjoint_lens(gone, all.difference(gone));
    assert(gone + all.difference(gone) =~= all);
}

/// An annotation that was deleted is not there any more, and every other one
/// stays.
pub proof fn law_deleted_is_gone(t: Tables, id: i64, row_id: int, now: Seq<char>)
    ensures
        t.ran(delete_statement(id), row_id, now) == (Tables {
            annotations: t.annotations.remove(id as int),
            ..t
        }),
{
    lemma_texts();
}

/// Editing an annotation changes its text and its type, and nothing else of it or of
/// any other row.
pub proof fn law_annotation_edited(
    t: Tables,
    id: i64,
    content: Seq<char>,
    annotation_type: AnnotationType,
    row_id: int,
    now: Seq<char>,
)
    requires
        t.annotations.contains_key(id as int),
        t.annotations[id as int].len() == 15,
    ensures
        ({
            let u = t.ran(update_statement(id, content, annotation_type), row_id, now);
            let row = u.annotations[id as int];
            &&& u.repos == t.repos
            &&& u.annotations.dom() == t.annotations.dom()
            &&& forall|k: int| k != id ==> #[trigger] u.annotations[k] == t.annotations[k]
            &&& row.len() == 15
            &&& row[8] == SqlV::Text(content)
            &&& row[7] == SqlV::Text(
                if annotation_type == AnnotationType::Todo {
                    "todo"@
                } else {
                    "comment"@
                },
            )
            &&& forall|c: int|
                0 <= c < 15 && c != 7 && c != 8 ==> #[trigger] row[c] == t.annotations[id as int][c]
        }),
{
    lemma_texts();
    let s = update_statement(id, content, annotation_type);
    let u = t.ran(s, row_id, now);
    assert(s.params.last() == SqlV::Int(id as int));
    assert(u.annotations.dom() =~= t.annotations.dom());
}

} // verus!
