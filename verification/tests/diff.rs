use differ::diff::{
    assemble_hunks, build_hunk_patch, changed_files, highlight_sources,
    load_new_file_content_for_highlight, without_newline, Delta, DeltaStatus, DiffEngine, DiffFile, DiffHunk,
    DiffLine, DiffMode, FileStatus, HunkEvent, HunkSource, InlineRange, LineKind, Source,
    SyntacticChange, SyntacticHunk,
};
use differ::intraline::{
    compute_inline_ranges, compute_intraline_ranges, merge_inline_ranges, ranges_of_changes,
    sort_ranges, ChangeKind, CharChange,
};

fn line(kind: LineKind, old: Option<u32>, new: Option<u32>, content: &str) -> DiffLine {
    DiffLine {
        kind,
        old_line_no: old,
        new_line_no: new,
        content: content.to_string(),
        highlights: Vec::new(),
        inline_ranges: Vec::new(),
    }
}

fn file(old: Option<&str>, new: Option<&str>, status: FileStatus) -> DiffFile {
    DiffFile {
        old_path: old.map(|s| s.to_string()),
        new_path: new.map(|s| s.to_string()),
        status,
        hunks: Vec::new(),
    }
}

fn pairs(v: &[InlineRange]) -> Vec<(usize, usize)> {
    v.iter().map(|r| (r.start, r.end)).collect()
}

fn ranges(v: &[(usize, usize)]) -> Vec<InlineRange> {
    v.iter().map(|r| InlineRange { start: r.0, end: r.1 }).collect()
}

#[test]
fn files_have_paths() {
    let f = file(Some("old.rs"), Some("new.rs"), FileStatus::Renamed);
    assert_eq!(f.path(), "new.rs");
    assert_eq!(
        f.highlight_keys(),
        ("new.rs".to_string(), "old.rs".to_string(), "new.rs".to_string())
    );
    let f = file(Some("old.rs"), None, FileStatus::Deleted);
    assert_eq!(f.path(), "old.rs");
    assert_eq!(f.any_path(), Some("old.rs".to_string()));
    let f = file(None, None, FileStatus::Modified);
    assert_eq!(f.path(), "<unknown>");
    assert_eq!(f.any_path(), None);
}

#[test]
fn changed_files_are_listed() {
    let delta = |status: DeltaStatus, path: &str| Delta {
        status,
        old_path: Some(path.to_string()),
        new_path: Some(path.to_string()),
    };
    let files = changed_files(&[
        delta(DeltaStatus::Added, "a"),
        delta(DeltaStatus::Other, "b"),
        delta(DeltaStatus::Deleted, "c"),
        delta(DeltaStatus::Modified, "d"),
        delta(DeltaStatus::Renamed, "e"),
        delta(DeltaStatus::Copied, "f"),
        delta(DeltaStatus::TypeChanged, "g"),
    ]);
    let found: Vec<(String, FileStatus)> = files.iter().map(|f| (f.path(), f.status)).collect();
    assert_eq!(
        found,
        vec![
            ("a".to_string(), FileStatus::Added),
            ("c".to_string(), FileStatus::Deleted),
            ("d".to_string(), FileStatus::Modified),
            ("e".to_string(), FileStatus::Renamed),
            ("f".to_string(), FileStatus::Added),
            ("g".to_string(), FileStatus::Modified),
        ]
    );
}

#[test]
fn hunks_are_assembled() {
    let text = |origin: char, old: Option<u32>, new: Option<u32>, content: &str| HunkEvent::Line {
        origin,
        old_line_no: old,
        new_line_no: new,
        content: content.to_string(),
    };
    let head = |old_start: u32, new_start: u32| HunkEvent::Hunk {
        old_start,
        old_lines: 2,
        new_start,
        new_lines: 2,
        header: Some("@@ fn".to_string()),
    };
    let hunks = assemble_hunks(&[
        text('+', None, Some(1), "before any hunk"),
        head(1, 1),
        text(' ', Some(1), Some(1), "same"),
        text('-', Some(2), None, "gone"),
        text('+', None, Some(2), "come"),
        head(9, 9),
        text('\\', None, None, "No newline"),
    ]);
    assert_eq!(hunks.len(), 2);
    assert_eq!((hunks[0].old_start, hunks[1].old_start), (1, 9));
    let kinds: Vec<LineKind> = hunks[0].lines.iter().map(|l| l.kind).collect();
    assert_eq!(kinds, vec![LineKind::Context, LineKind::Deletion, LineKind::Addition]);
    assert_eq!(hunks[0].lines[1].content, "gone");
    assert_eq!(hunks[0].lines[1].old_line_no, Some(2));
    assert_eq!(hunks[1].lines[0].kind, LineKind::Context);
}

#[test]
fn lines_lose_one_newline() {
    assert_eq!(without_newline("a\n"), "a");
    assert_eq!(without_newline("a\n\n"), "a\n");
    assert_eq!(without_newline("a"), "a");
    assert_eq!(without_newline(""), "");
}

#[test]
fn hunks_come_from_where_they_can() {
    let (engine, warn) = DiffEngine::new("/repo".to_string(), 3, true);
    assert!(!warn);
    assert_eq!(
        engine.hunk_source(&file(Some("a"), Some("a"), FileStatus::Modified)),
        HunkSource::Syntactic
    );
    assert_eq!(
        engine.hunk_source(&file(Some("a"), None, FileStatus::Deleted)),
        HunkSource::Nowhere
    );
    let (engine, warn) = DiffEngine::new("/repo".to_string(), 3, false);
    assert!(warn);
    assert_eq!(
        engine.hunk_source(&file(Some("a"), Some("a"), FileStatus::Modified)),
        HunkSource::Git
    );
}

#[test]
fn syntactic_hunks_are_taken_over() {
    let (engine, _) = DiffEngine::new("/repo".to_string(), 3, true);
    let change = |kind: &str| SyntacticChange {
        kind: kind.to_string(),
        old_line: Some(4),
        new_line: None,
        content: kind.to_string(),
    };
    let parsed = vec![SyntacticHunk {
        old_start: 4,
        new_start: 5,
        changes: vec![
            change("add"),
            change("addition"),
            change("del"),
            change("deletion"),
            change("other"),
        ],
    }];
    let hunks = engine.parse_difftastic(Some(parsed), "", "");
    assert_eq!(hunks.len(), 1);
    let h = &hunks[0];
    assert_eq!((h.old_start, h.old_lines, h.new_start, h.new_lines), (4, 0, 5, 0));
    let kinds: Vec<LineKind> = h.lines.iter().map(|l| l.kind).collect();
    assert_eq!(
        kinds,
        vec![
            LineKind::Addition,
            LineKind::Addition,
            LineKind::Deletion,
            LineKind::Deletion,
            LineKind::Context,
        ]
    );
    assert_eq!(h.lines[0].old_line_no, Some(4));

    // What cannot be parsed is shown line by line.
    let hunks = engine.parse_difftastic(None, "a\nb", "a\nx\nc");
    assert_eq!(hunks.len(), 1);
    assert_eq!((hunks[0].old_lines, hunks[0].new_lines), (2, 3));
    assert_eq!(hunks[0].lines[1].kind, LineKind::Context);
    assert_eq!(hunks[0].lines[1].content, "x");
    assert_eq!(hunks[0].lines[2].kind, LineKind::Addition);
    assert_eq!(hunks[0].lines[2].old_line_no, None);
    assert_eq!(hunks[0].lines[2].new_line_no, Some(3));
    assert_eq!(engine.create_unified_hunks("a", "").len(), 0);
}

fn hunk() -> DiffHunk {
    DiffHunk {
        old_start: 3,
        old_lines: 2,
        new_start: 3,
        new_lines: 2,
        header: None,
        lines: vec![
            line(LineKind::Context, Some(3), Some(3), "same"),
            line(LineKind::Deletion, Some(4), None, "gone"),
            line(LineKind::Addition, None, Some(4), "come"),
        ],
    }
}

#[test]
fn patches_are_written() {
    let body = "@@ -3,2 +3,2 @@\n same\n-gone\n+come\n";
    let f = file(Some("a.rs"), Some("b.rs"), FileStatus::Renamed);
    assert_eq!(
        build_hunk_patch(&f, &hunk()),
        format!("diff --git a/a.rs b/b.rs\n--- a/a.rs\n+++ b/b.rs\n{}", body)
    );
    let f = file(None, Some("b.rs"), FileStatus::Added);
    assert_eq!(
        build_hunk_patch(&f, &hunk()),
        format!(
            "diff --git a/b.rs b/b.rs\nnew file mode 100644\n--- /dev/null\n+++ b/b.rs\n{}",
            body
        )
    );
    let f = file(Some("a.rs"), None, FileStatus::Deleted);
    assert_eq!(
        build_hunk_patch(&f, &hunk()),
        format!("diff --git a/a.rs b/a.rs\n--- a/a.rs\n+++ /dev/null\n{}", body)
    );
}

fn shown(s: &Option<Source>) -> String {
    match s {
        Some(Source::Working(p)) => format!("file {}", p),
        Some(Source::Show(o)) => format!("show {}", o),
        None => "nothing".to_string(),
    }
}

#[test]
fn texts_come_from_their_side() {
    let f = file(Some("old.rs"), Some("new.rs"), FileStatus::Modified);
    let commits = DiffMode::Commits { from: "a".to_string(), to: "b".to_string() };
    let merge = DiffMode::MergeBase { from: "a".to_string(), to: "b".to_string() };
    let tree = DiffMode::WorkingTree { base: "main".to_string() };
    let base = Some("base".to_string());
    for (mode, old, new) in [
        (DiffMode::Unstaged, "show :old.rs", "file new.rs"),
        (DiffMode::Staged, "show HEAD:old.rs", "show :new.rs"),
        (tree, "show main:old.rs", "file new.rs"),
        (commits, "show a:old.rs", "show b:new.rs"),
        (merge, "show base:old.rs", "show b:new.rs"),
    ] {
        let (o, n) = highlight_sources(&mode, &base, &f, true);
        assert_eq!((shown(&o).as_str(), shown(&n).as_str()), (old, new));
        assert_eq!(shown(&load_new_file_content_for_highlight(&mode, &f, "new.rs")), new);
    }
    let (o, n) =
        highlight_sources(&DiffMode::Unstaged, &None, &file(None, Some("n"), FileStatus::Added), true);
    assert_eq!((shown(&o).as_str(), shown(&n).as_str()), ("nothing", "file n"));
    let (o, n) = highlight_sources(
        &DiffMode::Unstaged,
        &None,
        &file(Some("o"), None, FileStatus::Deleted),
        true,
    );
    assert_eq!((shown(&o).as_str(), shown(&n).as_str()), ("show :o", "nothing"));
}

#[test]
fn ranges_are_merged() {
    let v = ranges(&[(5, 7), (0, 2), (2, 3), (6, 9), (12, 13)]);
    assert_eq!(pairs(&merge_inline_ranges(&v)), vec![(0, 3), (5, 9), (12, 13)]);
    assert_eq!(pairs(&merge_inline_ranges(&[])), vec![]);
    assert_eq!(pairs(&merge_inline_ranges(&ranges(&[(0, 9), (1, 2)]))), vec![(0, 9)]);
    // Ranges with one start keep their order.
    let v = ranges(&[(3, 9), (1, 2), (3, 4)]);
    assert_eq!(pairs(&sort_ranges(&v)), vec![(1, 2), (3, 9), (3, 4)]);
}

#[test]
fn changes_become_ranges() {
    let change =
        |kind: ChangeKind, value: &str| CharChange { kind, value: value.to_string() };
    let (old, new) = ranges_of_changes(&[
        change(ChangeKind::Equal, "a"),
        change(ChangeKind::Delete, "é"),
        change(ChangeKind::Insert, "xy"),
        change(ChangeKind::Equal, "z"),
        change(ChangeKind::Insert, ""),
        change(ChangeKind::Delete, "q"),
    ]);
    assert_eq!(pairs(&old), vec![(1, 3), (4, 5)]);
    assert_eq!(pairs(&new), vec![(1, 3)]);
}

#[test]
fn changed_characters_are_found() {
    let (old, new) = compute_inline_ranges("let x = 1;", "let y = 1;");
    assert_eq!(pairs(&old), vec![(4, 5)]);
    assert_eq!(pairs(&new), vec![(4, 5)]);
    let (old, new) = compute_inline_ranges("same", "same");
    assert_eq!((old.len(), new.len()), (0, 0));
    let (old, new) = compute_inline_ranges("", "é");
    assert_eq!((old.len(), pairs(&new)), (0, vec![(0, 2)]));
}

#[test]
fn similar_lines_are_paired() {
    let lines = [
        line(LineKind::Deletion, Some(1), None, "let total = count + 1;"),
        line(LineKind::Deletion, Some(2), None, "zzzzzzzz"),
        line(LineKind::Addition, None, Some(1), "qqqq qqqq"),
        line(LineKind::Addition, None, Some(2), "let total = count + 2;"),
        line(LineKind::Context, Some(3), Some(3), "end"),
        line(LineKind::Addition, None, Some(4), "alone"),
    ];
    let v = compute_intraline_ranges(&lines);
    assert_eq!(v.len(), 6);
    assert_eq!(pairs(&v[0]), vec![(20, 21)]);
    assert_eq!(pairs(&v[3]), vec![(20, 21)]);
    for i in [1, 2, 4, 5] {
        assert_eq!(v[i].len(), 0);
    }
}

#[test]
fn equally_similar_lines_are_paired_by_distance() {
    let lines = [
        line(LineKind::Deletion, Some(1), None, "abcd1"),
        line(LineKind::Deletion, Some(2), None, "abcd2"),
        line(LineKind::Addition, None, Some(1), "abcd3"),
        line(LineKind::Addition, None, Some(2), "abcd4"),
    ];
    let v = compute_intraline_ranges(&lines);
    for r in &v {
        assert_eq!(pairs(r), vec![(4, 5)]);
    }
}
