use differ::export::{
    export, export_json, export_markdown, ExportAnnotation, ExportFormat, Exported,
};
use differ::storage::{
    encode, Annotation, AnnotationRow, AnnotationType, NewAnnotation, RepoStep, Side, SqlValue,
    Statement, Storage, ANNOTATION_COLUMNS, BUSY_TIMEOUT_SECS, JOURNAL_MODE, SCHEMA, TABLE_INFO,
};
use rusqlite::types::Value;
use rusqlite::{params_from_iter, Connection};
use std::path::Path;

/// A database that runs the library's statements.
struct Db {
    conn: Connection,
}

fn value_of(v: &SqlValue) -> Value {
    match v {
        SqlValue::Null => Value::Null,
        SqlValue::Int(n) => Value::Integer(*n),
        SqlValue::Text(s) => Value::Text(s.clone()),
    }
}

impl Db {
    fn open(path: &Path) -> Db {
        let conn = Connection::open(path).unwrap();
        conn.execute_batch(JOURNAL_MODE).unwrap();
        conn.busy_timeout(std::time::Duration::from_secs(BUSY_TIMEOUT_SECS)).unwrap();
        conn.execute_batch(SCHEMA).unwrap();
        let db = Db { conn };
        for sql in Storage::ensure_annotation_columns(&db.columns()) {
            db.conn.execute(&sql, []).unwrap();
        }
        db
    }

    fn columns(&self) -> Vec<String> {
        let mut stmt = self.conn.prepare(TABLE_INFO).unwrap();
        let rows = stmt.query_map([], |row| row.get::<_, String>(1)).unwrap();
        rows.map(|r| r.unwrap()).collect()
    }

    fn run(&self, s: &Statement) -> usize {
        self.conn.execute(&s.sql, params_from_iter(s.params.iter().map(value_of))).unwrap()
    }

    fn refuses(&self, s: &Statement) -> bool {
        self.conn.execute(&s.sql, params_from_iter(s.params.iter().map(value_of))).is_err()
    }

    fn repo(&self, path: &str, name: Option<&str>) -> i64 {
        let hash = Storage::hash_repo_path(path);
        let find = Storage::find_repo(&hash);
        let mut stmt = self.conn.prepare(&find.sql).unwrap();
        let existing = stmt
            .query_map(params_from_iter(find.params.iter().map(value_of)), |row| row.get(0))
            .unwrap()
            .next()
            .map(|r| r.unwrap());
        match Storage::get_or_create_repo(&hash, existing, &name.map(|n| n.to_string())) {
            RepoStep::Known { id, update } => {
                if let Some(update) = update {
                    self.run(&update);
                }
                id
            }
            RepoStep::Insert(insert) => {
                self.run(&insert);
                self.conn.last_insert_rowid()
            }
        }
    }

    fn add(&self, repo_id: i64, a: &NewAnnotation) -> i64 {
        self.run(&Storage::add_annotation(repo_id, a));
        self.conn.last_insert_rowid()
    }

    fn query(&self, s: &Statement) -> Vec<Annotation> {
        let mut stmt = self.conn.prepare(&s.sql).unwrap();
        let rows = stmt
            .query_map(params_from_iter(s.params.iter().map(value_of)), |row| {
                Ok(AnnotationRow {
                    id: row.get(0)?,
                    repo_id: row.get(1)?,
                    file_path: row.get(2)?,
                    commit_sha: row.get(3)?,
                    side: row.get(4)?,
                    start_line: row.get(5)?,
                    end_line: row.get(6)?,
                    annotation_type: row.get(7)?,
                    content: row.get(8)?,
                    anchor_line: row.get(9)?,
                    anchor_text: row.get(10)?,
                    context_before: row.get(11)?,
                    context_after: row.get(12)?,
                    created_at: row.get(13)?,
                    resolved_at: row.get(14)?,
                })
            })
            .unwrap();
        rows.map(|r| Storage::row_to_annotation(r.unwrap())).collect()
    }

    fn list(&self, repo_id: i64) -> Vec<Annotation> {
        self.query(&Storage::list_annotations(repo_id, None))
    }
}

fn note(
    file_path: &str,
    commit_sha: Option<&str>,
    side: Side,
    start_line: u32,
    end_line: Option<u32>,
    annotation_type: AnnotationType,
    content: &str,
    anchor_text: &str,
) -> NewAnnotation {
    NewAnnotation {
        file_path: file_path.to_string(),
        commit_sha: commit_sha.map(|s| s.to_string()),
        side,
        start_line,
        end_line,
        annotation_type,
        content: content.to_string(),
        anchor_line: start_line,
        anchor_text: anchor_text.to_string(),
        context_before: String::new(),
        context_after: String::new(),
    }
}

fn json_of(a: &ExportAnnotation) -> serde_json::Value {
    let mut m = serde_json::Map::new();
    m.insert("file_path".to_string(), a.file_path.clone().into());
    m.insert("line".to_string(), a.line.into());
    m.insert("end_line".to_string(), a.end_line.into());
    m.insert("side".to_string(), a.side.clone().into());
    m.insert("annotation_type".to_string(), a.annotation_type.clone().into());
    m.insert("content".to_string(), a.content.clone().into());
    m.insert("anchor_line".to_string(), a.anchor_line.into());
    m.insert("anchor_text".to_string(), a.anchor_text.clone().into());
    m.insert("context_before".to_string(), a.context_before.clone().into());
    m.insert("context_after".to_string(), a.context_after.clone().into());
    m.insert("code_excerpt".to_string(), a.code_excerpt.clone().into());
    m.insert("commit_sha".to_string(), a.commit_sha.clone().into());
    m.into()
}

#[test]
fn test_create_and_list_annotations() {
    let dir = tempfile::tempdir().unwrap();
    let db_path = dir.path().join("test.db");
    let storage = Db::open(&db_path);

    let repo_id = storage.repo("/test/repo", Some("test-repo"));

    let id = storage.add(
        repo_id,
        &note(
            "src/main.rs",
            Some("abc123"),
            Side::New,
            10,
            Some(15),
            AnnotationType::Comment,
            "This needs refactoring",
            "This needs refactoring",
        ),
    );

    let annotations = storage.list(repo_id);
    assert_eq!(annotations.len(), 1);
    assert_eq!(annotations[0].id, id);
    assert_eq!(annotations[0].content, "This needs refactoring");
}

#[test]
fn test_delete_and_clear() {
    let dir = tempfile::tempdir().unwrap();
    let db_path = dir.path().join("test.db");
    let storage = Db::open(&db_path);

    let repo_id = storage.repo("/test/repo", None);

    let id = storage.add(
        repo_id,
        &note("test.rs", None, Side::New, 1, None, AnnotationType::Todo, "Fix this", "Fix this"),
    );

    // Should be visible
    let annotations = storage.list(repo_id);
    assert_eq!(annotations.len(), 1);

    // Delete it
    storage.run(&Storage::delete_annotation(id));

    // Should be gone
    let annotations = storage.list(repo_id);
    assert_eq!(annotations.len(), 0);
}

#[test]
fn test_export_markdown() {
    let dir = tempfile::tempdir().unwrap();
    let db_path = dir.path().join("test.db");
    let storage = Db::open(&db_path);

    let repo_id = storage.repo("/test/repo", Some("test"));

    storage.add(
        repo_id,
        &note(
            "src/main.rs",
            None,
            Side::New,
            10,
            None,
            AnnotationType::Todo,
            "Refactor this function",
            "Refactor this function",
        ),
    );

    storage.add(
        repo_id,
        &note(
            "src/lib.rs",
            None,
            Side::New,
            5,
            Some(10),
            AnnotationType::Comment,
            "Add error handling here",
            "Add error handling here",
        ),
    );

    let md = export_markdown(&storage.list(repo_id));

    assert!(md.contains("# Code Annotations"));
    assert!(md.contains("## src/lib.rs"));
    assert!(md.contains("## src/main.rs"));
    assert!(md.contains("Refactor this function"));
    assert!(md.contains("- [ ] L10: Refactor this function"));
    assert!(md.contains("Add error handling here"));
    assert!(md.contains("L5-10"));
    assert!(md.contains("**Code context:**"));
}

#[test]
fn test_export_markdown_old_side_context() {
    let dir = tempfile::tempdir().unwrap();
    let db_path = dir.path().join("test.db");
    let storage = Db::open(&db_path);

    let repo_id = storage.repo("/test/repo", Some("test"));

    storage.add(
        repo_id,
        &note(
            "src/legacy.rs",
            None,
            Side::Old,
            42,
            None,
            AnnotationType::Comment,
            "Why was this removed?",
            "let removed = true;",
        ),
    );

    let md = export_markdown(&storage.list(repo_id));

    assert!(md.contains("L42 (deleted code)"));
    assert!(md.contains("**Old code context:**"));
    assert!(md.contains("let removed = true;"));
}

#[test]
fn test_export_json() {
    let dir = tempfile::tempdir().unwrap();
    let db_path = dir.path().join("test.db");
    let storage = Db::open(&db_path);

    let repo_id = storage.repo("/test/repo", None);

    storage.add(
        repo_id,
        &note(
            "test.rs",
            None,
            Side::New,
            1,
            None,
            AnnotationType::Comment,
            "Test annotation",
            "Test annotation",
        ),
    );

    let records: Vec<serde_json::Value> =
        export_json(&storage.list(repo_id)).iter().map(json_of).collect();
    let json = serde_json::to_string_pretty(&records).unwrap();
    let parsed: serde_json::Value = serde_json::from_str(&json).unwrap();

    assert!(parsed.is_array());
    assert_eq!(parsed.as_array().unwrap().len(), 1);
    assert_eq!(parsed[0]["content"], "Test annotation");
    assert_eq!(parsed[0]["anchor_line"], 1);
    assert_eq!(parsed[0]["anchor_text"], "Test annotation");
    assert_eq!(parsed[0]["code_excerpt"], "Test annotation");
}

#[test]
fn export_picks_the_format() {
    assert!(matches!(
        export(&[], ExportFormat::Markdown),
        Exported::Markdown(s) if s == "# No annotations found\n"
    ));
    assert!(matches!(export(&[], ExportFormat::Json), Exported::Json(v) if v.is_empty()));
}

#[test]
fn stored_annotation_reads_back() {
    let dir = tempfile::tempdir().unwrap();
    let storage = Db::open(&dir.path().join("test.db"));
    let repo_id = storage.repo("/test/repo", None);
    let a = NewAnnotation {
        file_path: "a 'quoted' path.rs".to_string(),
        commit_sha: Some("0123456789".to_string()),
        side: Side::Old,
        start_line: 3,
        end_line: Some(9),
        annotation_type: AnnotationType::Todo,
        content: "first\nsecond".to_string(),
        anchor_line: 4,
        anchor_text: "anchor".to_string(),
        context_before: "b1\nb2".to_string(),
        context_after: "a1".to_string(),
    };
    let id = storage.add(repo_id, &a);
    let all = storage.list(repo_id);
    assert_eq!(all.len(), 1);
    let r = &all[0];
    assert_eq!(r.id, id);
    assert_eq!(r.repo_id, repo_id);
    assert_eq!(r.file_path, a.file_path);
    assert_eq!(r.commit_sha, a.commit_sha);
    assert_eq!(r.side, Side::Old);
    assert_eq!(r.start_line, 3);
    assert_eq!(r.end_line, Some(9));
    assert_eq!(r.annotation_type, AnnotationType::Todo);
    assert_eq!(r.content, a.content);
    assert_eq!(r.anchor_line, 4);
    assert_eq!(r.anchor_text, "anchor");
    assert_eq!(r.context_before, "b1\nb2");
    assert_eq!(r.context_after, "a1");
    assert_eq!(r.resolved_at, None);
    assert!(!r.created_at.is_empty());
}

#[test]
fn annotations_outlive_the_connection() {
    let dir = tempfile::tempdir().unwrap();
    let path = dir.path().join("test.db");
    let (repo_id, id) = {
        let storage = Db::open(&path);
        let repo_id = storage.repo("/test/repo", None);
        let a = note("f", None, Side::New, 1, None, AnnotationType::Todo, "kept", "x");
        (repo_id, storage.add(repo_id, &a))
    };
    let storage = Db::open(&path);
    assert_eq!(storage.repo("/test/repo", None), repo_id);
    let all = storage.list(repo_id);
    assert_eq!(all.len(), 1);
    assert_eq!((all[0].id, all[0].content.as_str()), (id, "kept"));
    assert_eq!(all[0].resolved_at, None);
}

#[test]
fn annotations_are_updated_and_resolved() {
    let dir = tempfile::tempdir().unwrap();
    let storage = Db::open(&dir.path().join("test.db"));
    let repo_id = storage.repo("/r", None);
    let id = storage
        .add(repo_id, &note("f", None, Side::New, 1, None, AnnotationType::Comment, "one", "x"));

    storage.run(&Storage::update_annotation(id, "two", AnnotationType::Todo));
    let a = &storage.list(repo_id)[0];
    assert_eq!(a.content, "two");
    assert_eq!(a.annotation_type, AnnotationType::Todo);

    storage.run(&Storage::update_annotation_location(id, 7, Some(8), 7, "y", "before", "after"));
    let a = &storage.list(repo_id)[0];
    assert_eq!((a.start_line, a.end_line, a.anchor_line), (7, Some(8), 7));
    assert_eq!(a.anchor_text, "y");
    assert_eq!(a.context_before, "before");
    assert_eq!(a.context_after, "after");

    storage.run(&Storage::resolve_annotation(id));
    assert!(storage.list(repo_id)[0].resolved_at.is_some());
    storage.run(&Storage::unresolve_annotation(id));
    assert!(storage.list(repo_id)[0].resolved_at.is_none());
}

#[test]
fn annotations_out_of_order_are_refused() {
    let dir = tempfile::tempdir().unwrap();
    let storage = Db::open(&dir.path().join("test.db"));
    let repo = storage.repo("/one", None);
    let a = |start: u32, end: Option<u32>| {
        note("f", None, Side::New, start, end, AnnotationType::Todo, "c", "")
    };
    let id = storage.add(repo, &a(3, Some(3)));
    // No line zero, no end before the start, and no unknown repository.
    assert!(storage.refuses(&Storage::add_annotation(repo, &a(0, None))));
    assert!(storage.refuses(&Storage::add_annotation(repo, &a(5, Some(4)))));
    assert!(storage.refuses(&Storage::add_annotation(repo + 1, &a(1, None))));
    let places = |db: &Db| -> Vec<(i64, u32, Option<u32>)> {
        db.list(repo).into_iter().map(|a| (a.id, a.start_line, a.end_line)).collect()
    };
    assert_eq!(places(&storage), vec![(id, 3, Some(3))]);
    let place = |start: u32, end: Option<u32>| {
        Storage::update_annotation_location(id, start, end, 1, "", "", "")
    };
    assert!(storage.refuses(&place(0, None)));
    assert!(storage.refuses(&place(9, Some(8))));
    assert_eq!(places(&storage), vec![(id, 3, Some(3))]);
    storage.run(&place(9, None));
    assert_eq!(places(&storage), vec![(id, 9, None)]);
    // A hash is stored once.
    let hash = Storage::hash_repo_path("/one");
    match Storage::get_or_create_repo(&hash, None, &None) {
        RepoStep::Insert(s) => assert!(storage.refuses(&s)),
        step => panic!("{:?}", step),
    }
}

#[test]
fn annotations_are_listed_by_file_and_line() {
    let dir = tempfile::tempdir().unwrap();
    let storage = Db::open(&dir.path().join("test.db"));
    let one = storage.repo("/one", None);
    let two = storage.repo("/two", None);
    assert_ne!(one, two);
    for (file, line) in [("b", 5), ("a", 9), ("b", 2), ("a", 1)] {
        storage.add(one, &note(file, None, Side::New, line, None, AnnotationType::Todo, "c", ""));
    }
    storage.add(two, &note("a", None, Side::New, 1, None, AnnotationType::Todo, "other", ""));

    let places: Vec<(String, u32)> =
        storage.list(one).into_iter().map(|a| (a.file_path, a.start_line)).collect();
    assert_eq!(
        places,
        vec![
            ("a".to_string(), 1),
            ("a".to_string(), 9),
            ("b".to_string(), 2),
            ("b".to_string(), 5)
        ]
    );
    let of_b = storage.query(&Storage::list_annotations(one, Some("b")));
    assert_eq!(of_b.iter().map(|a| a.start_line).collect::<Vec<_>>(), vec![2, 5]);

    assert_eq!(storage.run(&Storage::clear_all(one)), 4);
    assert_eq!(storage.list(one).len(), 0);
    assert_eq!(storage.list(two).len(), 1);
}

#[test]
fn annotations_of_a_line_include_ranges() {
    let dir = tempfile::tempdir().unwrap();
    let storage = Db::open(&dir.path().join("test.db"));
    let repo = storage.repo("/one", None);
    storage.add(repo, &note("f", None, Side::New, 3, Some(5), AnnotationType::Todo, "range", ""));
    storage.add(repo, &note("f", None, Side::New, 5, None, AnnotationType::Todo, "line", ""));
    storage.add(repo, &note("f", None, Side::Old, 5, None, AnnotationType::Todo, "old", ""));
    let at = |line: u32, side: Side| -> Vec<String> {
        storage
            .query(&Storage::get_annotations_for_line(repo, "f", line, side))
            .into_iter()
            .map(|a| a.content)
            .collect()
    };
    assert_eq!(at(2, Side::New), Vec::<String>::new());
    assert_eq!(at(4, Side::New), vec!["range"]);
    assert_eq!(at(5, Side::New), vec!["range", "line"]);
    assert_eq!(at(5, Side::Old), vec!["old"]);
    assert_eq!(at(6, Side::New), Vec::<String>::new());
}

#[test]
fn repositories_are_found_again() {
    let dir = tempfile::tempdir().unwrap();
    let storage = Db::open(&dir.path().join("test.db"));
    let id = storage.repo("/test/repo", Some("first"));
    assert_eq!(storage.repo("/test/repo", None), id);
    let name = |db: &Db| -> String {
        db.conn.query_row("SELECT display_name FROM repos", [], |row| row.get(0)).unwrap()
    };
    assert_eq!(name(&storage), "first");
    assert_eq!(storage.repo("/test/repo", Some("second")), id);
    assert_eq!(name(&storage), "second");
}

#[test]
fn missing_columns_are_added() {
    let dir = tempfile::tempdir().unwrap();
    let path = dir.path().join("test.db");
    {
        let conn = Connection::open(&path).unwrap();
        conn.execute_batch(
            "CREATE TABLE annotations (id INTEGER PRIMARY KEY, repo_id INTEGER, file_path TEXT,
             commit_sha TEXT, side TEXT, start_line INTEGER, end_line INTEGER,
             annotation_type TEXT, content TEXT, anchor_text TEXT, created_at TEXT,
             resolved_at TEXT);",
        )
        .unwrap();
    }
    let db = Db::open(&path);
    let cols = db.columns();
    for name in ["anchor_line", "anchor_text", "context_before", "context_after"] {
        assert_eq!(cols.iter().filter(|c| *c == name).count(), 1);
    }
    assert_eq!(Storage::ensure_annotation_columns(&cols), Vec::<String>::new());
    assert_eq!(
        Storage::ensure_annotation_columns(&[]),
        vec![
            "ALTER TABLE annotations ADD COLUMN anchor_line INTEGER DEFAULT 0",
            "ALTER TABLE annotations ADD COLUMN anchor_text TEXT DEFAULT ''",
            "ALTER TABLE annotations ADD COLUMN context_before TEXT DEFAULT ''",
            "ALTER TABLE annotations ADD COLUMN context_after TEXT DEFAULT ''",
        ]
    );
    assert_eq!(ANNOTATION_COLUMNS.split(", ").count(), 15);
}

#[test]
fn paths_are_hashed() {
    // SHA-256 of "abc", and of no bytes at all.
    assert_eq!(
        Storage::hash_repo_path("abc"),
        "ba7816bf8f01cfea414140de5dae2223b00361a396177a9cb410ff61f20015ad"
    );
    assert_eq!(
        Storage::hash_repo_path(""),
        "e3b0c44298fc1c149afbf4c8996fb92427ae41e4649b934ca495991b7852b855"
    );
    assert_eq!(encode(&[0, 15, 16, 255]), "000f10ff");
}

#[test]
fn names_of_types_and_sides_read_back() {
    for t in [AnnotationType::Comment, AnnotationType::Todo] {
        assert_eq!(AnnotationType::from_str(t.as_str()), Some(t));
    }
    for s in [Side::Old, Side::New] {
        assert_eq!(Side::from_str(s.as_str()), Some(s));
    }
    assert_eq!(AnnotationType::Comment.as_str(), "comment");
    assert_eq!(AnnotationType::Todo.as_str(), "todo");
    assert_eq!(Side::Old.as_str(), "old");
    assert_eq!(Side::New.as_str(), "new");
    assert_eq!(AnnotationType::from_str("ai_prompt"), None);
    assert_eq!(Side::from_str("left"), None);
}

#[test]
fn unknown_names_in_a_row_are_defaults() {
    let row = AnnotationRow {
        id: 1,
        repo_id: 2,
        file_path: "f".to_string(),
        commit_sha: None,
        side: "sideways".to_string(),
        start_line: 1,
        end_line: None,
        annotation_type: "ai_prompt".to_string(),
        content: String::new(),
        anchor_line: 0,
        anchor_text: String::new(),
        context_before: String::new(),
        context_after: String::new(),
        created_at: String::new(),
        resolved_at: None,
    };
    let a = Storage::row_to_annotation(row);
    assert_eq!(a.side, Side::New);
    assert_eq!(a.annotation_type, AnnotationType::Comment);
    assert!(a.covers(1) && !a.covers(2));
}
