use differ::action::{Action, Next, PatchKind};
use differ::ai::{
    ai_command, build_ai_prompt, event_text, extract_claude_text, wants_resolve, AiEvent,
};
use differ::config::{AiTarget, Config};
use differ::diff::{DiffFile, DiffHunk, DiffLine, DiffMode, FileStatus, LineKind};
use differ::display::DisplayLine;
use differ::help::{help_line_count, HELP_TEXT};
use differ::keys::{editor_text, render_input_with_cursor, Key, KeyCode};
use differ::names::NameMap;
use differ::palette::Palette;
use differ::panes::Status;
use differ::stage::patch_error;
use differ::state::{AiStatus, App, Disk, Mode};
use differ::storage::{Annotation, AnnotationType, Side, SqlValue};
use differ::stream::DiffStreamEvent;
use differ::style::Span;

fn line(kind: LineKind, old: Option<u32>, new: Option<u32>, content: &str) -> DiffLine {
    DiffLine {
        kind,
        old_line_no: old,
        new_line_no: new,
        content: content.to_string(),
        highlights: Vec::new(),
        inline_ranges: Vec::new(),
    }
}

fn hunk(start: u32, header: Option<&str>) -> DiffHunk {
    DiffHunk {
        old_start: start,
        old_lines: 3,
        new_start: start,
        new_lines: 3,
        header: header.map(|s| s.to_string()),
        lines: vec![
            line(LineKind::Context, Some(start), Some(start), "before"),
            line(LineKind::Deletion, Some(start + 1), None, "let x = 1;"),
            line(LineKind::Addition, None, Some(start + 1), "let x = 2;"),
            line(LineKind::Context, Some(start + 2), Some(start + 2), "after"),
        ],
    }
}

fn file(path: &str, hunks: Vec<DiffHunk>) -> DiffFile {
    DiffFile {
        old_path: Some(path.to_string()),
        new_path: Some(path.to_string()),
        status: FileStatus::Modified,
        hunks,
    }
}

fn no_disk() -> Disk {
    Disk {
        text: NameMap::new(),
        lossy: NameMap::new(),
        first: NameMap::new(),
        old: NameMap::new(),
    }
}

fn disk() -> Disk {
    let mut d = no_disk();
    let text = "before\nlet x = 2;\nafter\nmore\nlast\n";
    d.text.insert("a.rs", text.to_string());
    d.lossy.insert("a.rs", text.to_string());
    d
}

fn plain() -> Config {
    let mut c = Config::default();
    c.syntax_highlighting = false;
    c
}

fn loaded(files: Vec<DiffFile>) -> App {
    let mut app = App::new(1, Vec::new(), plain(), DiffMode::Unstaged, Vec::new(), None);
    app.set_visible_height(40);
    app.start_diff_stream(None);
    let generation = app.generation();
    for file in files {
        app.handle_diff_event(DiffStreamEvent::File { generation, file }, &no_disk());
    }
    app.handle_diff_event(DiffStreamEvent::Done { generation, error: None }, &no_disk());
    app
}

fn two_files() -> App {
    loaded(vec![
        file("a.rs", vec![hunk(1, Some("@@ -1,3 +1,3 @@ fn main()")), hunk(11, None)]),
        file("b.rs", vec![hunk(1, None)]),
    ])
}

/// Lets the first file come in again with other hunks.
fn replace_first(app: &mut App, hunks: Vec<DiffHunk>) {
    let generation = app.generation();
    let event = DiffStreamEvent::File { generation, file: file("a.rs", hunks) };
    app.handle_diff_event(event, &no_disk());
    app.flush_streamed_files(&no_disk());
}

fn shown(app: &App) -> Vec<String> {
    app.screen()
        .display_lines
        .iter()
        .map(|l| match l {
            DisplayLine::Spacer => "".to_string(),
            DisplayLine::FileHeader { path, .. } => format!("# {}", path),
            DisplayLine::HunkHeader { line_no, additions, deletions, .. } => {
                format!("@ {} +{} -{}", line_no, additions, deletions)
            }
            DisplayLine::HunkContext { text, .. } => format!("~ {}", text),
            DisplayLine::HunkEnd { .. } => "end".to_string(),
            DisplayLine::Diff { line, .. } => match line.kind {
                LineKind::Context => format!("  {}", line.content),
                LineKind::Addition => format!("+ {}", line.content),
                LineKind::Deletion => format!("- {}", line.content),
            },
            DisplayLine::Annotation { annotation, .. } => format!("! {}", annotation.content),
        })
        .collect()
}

fn at(app: &App) -> String {
    shown(app)[app.screen().current_line_idx].clone()
}

fn code(c: KeyCode) -> Key {
    Key { code: c, control: false, alt: false, shift: false, meta: false, released: false }
}

fn key(c: char) -> Key {
    code(KeyCode::Char(c))
}

fn ctrl(c: char) -> Key {
    Key { control: true, ..key(c) }
}

fn press(app: &mut App, keys: &str) -> Action {
    let mut last = Action::Idle;
    for c in keys.chars() {
        last = app.handle_input(key(c), &disk());
    }
    last
}

fn note(id: i64, path: &str, line: u32, side: Side, content: &str) -> Annotation {
    Annotation {
        id,
        repo_id: 1,
        file_path: path.to_string(),
        commit_sha: None,
        side,
        start_line: line,
        end_line: None,
        annotation_type: AnnotationType::Comment,
        content: content.to_string(),
        anchor_line: line,
        anchor_text: String::new(),
        context_before: String::new(),
        context_after: String::new(),
        created_at: String::new(),
        resolved_at: None,
    }
}

#[test]
fn a_diff_is_shown() {
    let mut app = two_files();
    let lines = shown(&app);
    assert_eq!(lines[0], "# a.rs");
    assert!(lines.contains(&"~ -1,3 +1,3 @@ fn main()".to_string()), "{:?}", lines);
    assert!(lines.contains(&"@ 1 +1 -1".to_string()) || lines.contains(&"@ 2 +1 -1".to_string()));
    assert_eq!(lines.iter().filter(|l| *l == "+ let x = 2;").count(), 3);
    assert_eq!(lines.iter().filter(|l| l.starts_with("# ")).count(), 2);
    assert_eq!(at(&app), "  before");
    assert!(!app.is_loading());
    // Every line belongs to a file.
    let total: usize = app.screen().file_line_ranges.iter().map(|r| r.unwrap().1).sum();
    assert_eq!(total, lines.len());
    // Once all is loaded, the changed characters of the paired lines are marked.
    app.build_display_lines(&no_disk());
    assert_eq!(shown(&app), lines);
    let inline: Vec<(usize, usize)> = app
        .screen()
        .display_lines
        .iter()
        .filter_map(|l| match l {
            DisplayLine::Diff { line, .. } if line.kind == LineKind::Addition => {
                Some((line.inline_ranges[0].start, line.inline_ranges[0].end))
            }
            _ => None,
        })
        .collect();
    assert_eq!(inline, vec![(8, 9), (8, 9), (8, 9)]);
}

#[test]
fn files_come_as_they_are_loaded() {
    let mut app = App::new(1, Vec::new(), plain(), DiffMode::Unstaged, Vec::new(), None);
    app.start_diff_stream(None);
    let generation = app.generation();
    assert!(app.is_loading());
    // Events of an earlier diff are ignored.
    let stale = DiffStreamEvent::File { generation: generation - 1, file: file("old", vec![]) };
    app.handle_diff_event(stale, &no_disk());
    assert_eq!(app.files().len() + app.pending_files().len(), 0);
    // A file that comes again takes its place.
    for n in [1, 11] {
        let event = DiffStreamEvent::File { generation, file: file("a.rs", vec![hunk(n, None)]) };
        app.handle_diff_event(event, &no_disk());
    }
    app.handle_diff_event(DiffStreamEvent::Done { generation, error: None }, &no_disk());
    assert_eq!(app.files().len(), 1);
    assert_eq!(app.files()[0].hunks[0].new_start, 11);
    assert_eq!(app.place_of_file("a.rs"), Some(0));
    let mut app = loaded(vec![]);
    let generation = app.generation();
    let failed = DiffStreamEvent::Done { generation, error: Some("broken".to_string()) };
    app.handle_diff_event(failed, &no_disk());
    assert!(app.message().unwrap().contains("broken"));
}

#[test]
fn the_cursor_moves_over_diff_lines() {
    let mut app = two_files();
    press(&mut app, "j");
    assert_eq!(at(&app), "- let x = 1;");
    press(&mut app, "k");
    assert_eq!(at(&app), "  before");
    press(&mut app, "k");
    assert_eq!(at(&app), "  before");
    press(&mut app, "G");
    assert_eq!(at(&app), "  after");
    press(&mut app, "g");
    assert_eq!(app.screen().scroll_offset, 0);
    press(&mut app, "n");
    assert!(at(&app).contains("let x"));
    let first = app.screen().current_line_idx;
    press(&mut app, "n");
    let second = app.screen().current_line_idx;
    assert!(second > first);
    assert!(at(&app).contains("let x"));
    press(&mut app, "N");
    assert_eq!(app.screen().current_line_idx, first);
    app.handle_input(code(KeyCode::Tab), &no_disk());
    assert_eq!(app.screen().current_file_info(), Some(("b.rs".to_string(), 1)));
    app.handle_input(code(KeyCode::BackTab), &no_disk());
    assert_eq!(app.screen().current_file_info(), Some(("a.rs".to_string(), 0)));
}

#[test]
fn the_cursor_stays_in_view() {
    let mut app = loaded(vec![file("a.rs", (0..9).map(|i| hunk(1 + 10 * i, None)).collect())]);
    app.set_visible_height(12);
    app.set_content_width(80);
    for _ in 0..60 {
        press(&mut app, "j");
        let (top, cursor) = (app.screen().scroll_offset, app.screen().current_line_idx);
        assert!(top <= cursor && cursor < top + 12);
    }
    app.handle_input(ctrl('u'), &no_disk());
    let (top, cursor) = (app.screen().scroll_offset, app.screen().current_line_idx);
    assert!(top <= cursor && cursor < top + 12);
}

#[test]
fn files_are_collapsed() {
    let mut app = two_files();
    let before = shown(&app);
    press(&mut app, "c");
    let lines = shown(&app);
    assert_eq!(lines[0], "# a.rs");
    assert_eq!(lines[3], "# b.rs");
    assert_eq!(at(&app), "# a.rs");
    press(&mut app, "c");
    assert_eq!(shown(&app), before);
}

#[test]
fn files_are_expanded_and_back() {
    let mut app = two_files();
    press(&mut app, "jj");
    let before = (shown(&app), app.screen().current_line_idx, app.screen().scroll_offset);
    press(&mut app, "x");
    assert_eq!(app.expanded(), Some(0));
    let lines = shown(&app);
    assert_eq!(lines[0], "# a.rs");
    assert!(lines.contains(&"+ let x = 2;".to_string()));
    assert!(lines.contains(&"- let x = 1;".to_string()));
    assert!(lines.contains(&"  more".to_string()));
    assert!(!lines.iter().any(|l| l == "# b.rs"));
    press(&mut app, "h");
    assert!(!shown(&app).contains(&"- let x = 1;".to_string()));
    press(&mut app, "h");
    assert_eq!(shown(&app), lines);
    press(&mut app, ":4");
    app.handle_input(code(KeyCode::Enter), &disk());
    assert_eq!(at(&app), "  more");
    press(&mut app, ":99");
    app.handle_input(code(KeyCode::Enter), &disk());
    assert_eq!(app.message(), Some("Line 99 not found"));
    press(&mut app, "x");
    assert_eq!(
        (shown(&app), app.screen().current_line_idx, app.screen().scroll_offset),
        before
    );
    press(&mut app, ":");
    assert_eq!(app.message(), Some("Line jump is available in expanded view (x)"));
}

#[test]
fn searches_find_lines_and_files() {
    let mut app = two_files();
    press(&mut app, "/x = [2]");
    assert_eq!(app.current_mode(), Mode::SearchContent);
    app.handle_input(code(KeyCode::Enter), &no_disk());
    assert_eq!(app.message(), Some("Found 3 matches"));
    assert_eq!(at(&app), "+ let x = 2;");
    let first = app.screen().current_line_idx;
    press(&mut app, "nn");
    assert_eq!(at(&app), "+ let x = 2;");
    press(&mut app, "n");
    assert_eq!(app.screen().current_line_idx, first);
    press(&mut app, "N");
    assert_ne!(app.screen().current_line_idx, first);
    app.handle_input(code(KeyCode::Esc), &no_disk());
    assert!(app.search().is_none());

    // What is no pattern is searched for as it stands.
    press(&mut app, "/LET X [");
    app.handle_input(code(KeyCode::Enter), &no_disk());
    assert_eq!(app.message(), Some("No matches found"));
    app.handle_input(code(KeyCode::Esc), &no_disk());
    press(&mut app, "fB\\.rs");
    app.handle_input(code(KeyCode::Enter), &no_disk());
    assert_eq!(app.message(), Some("Found 1 match"));
    assert!(app.is_file_search_match(1) && !app.is_file_search_match(0));
}

#[test]
fn annotations_are_added() {
    let mut app = two_files();
    press(&mut app, "jja");
    assert_eq!(app.current_mode(), Mode::AddAnnotation);
    press(&mut app, "Hi");
    app.handle_input(ctrl('j'), &disk());
    press(&mut app, "there");
    assert_eq!(editor_text(&app.input()), "Hi\nthere");
    app.handle_input(ctrl('t'), &disk());
    let action = app.handle_input(code(KeyCode::Enter), &disk());
    let (statement, next) = match action {
        Action::Store { statement, next } => (statement, next),
        _ => panic!("{:?}", action),
    };
    assert!(statement.sql.contains("INSERT INTO annotations"));
    assert!(matches!(&statement.params[0], SqlValue::Int(1)));
    match &next {
        Next::Added(a) => {
            assert_eq!(a.file_path, "a.rs");
            assert_eq!(a.side, Side::New);
            assert_eq!((a.start_line, a.end_line), (2, None));
            assert_eq!(a.annotation_type, AnnotationType::Todo);
            assert_eq!(a.content, "Hi\nthere");
            assert_eq!(a.anchor_text, "let x = 2;");
            assert_eq!(a.context_before, "before");
            assert_eq!(a.context_after, "after\nmore");
        }
        _ => panic!("{:?}", next),
    }
    let mut stored = note(7, "a.rs", 2, Side::New, "Hi\nthere");
    stored.annotation_type = AnnotationType::Todo;
    app.after_store(next, 7, vec![stored], &disk());
    assert_eq!(app.current_mode(), Mode::Normal);
    assert_eq!(app.annotations().len(), 1);
    assert!(shown(&app).contains(&"! Hi\nthere".to_string()));
}

#[test]
fn annotations_are_deleted_resolved_and_retyped() {
    let mut app = two_files();
    app.set_annotations(vec![
        note(7, "a.rs", 2, Side::New, "one"),
        note(8, "a.rs", 2, Side::Old, "two"),
    ]);
    app.build_display_lines(&no_disk());
    press(&mut app, "gjj");
    assert_eq!(at(&app), "+ let x = 2;");
    match press(&mut app, "r") {
        Action::Store { statement, .. } => {
            assert_eq!(
                statement.sql,
                "UPDATE annotations SET resolved_at = CURRENT_TIMESTAMP WHERE id = ?1"
            );
            assert!(matches!(statement.params[0], SqlValue::Int(7)));
        }
        a => panic!("{:?}", a),
    }
    match press(&mut app, "t") {
        Action::Store { statement, .. } => assert!(statement.sql.contains("UPDATE annotations")),
        a => panic!("{:?}", a),
    }
    match press(&mut app, "d") {
        Action::Store { statement, next } => {
            assert_eq!(statement.sql, "DELETE FROM annotations WHERE id = ?1");
            assert!(matches!(statement.params[0], SqlValue::Int(7)));
            app.after_store(next, 0, vec![note(8, "a.rs", 2, Side::Old, "two")], &no_disk());
        }
        a => panic!("{:?}", a),
    }
    assert!(!shown(&app).contains(&"! one".to_string()));
    press(&mut app, "e");
    assert_eq!(app.current_mode(), Mode::Normal);
    press(&mut app, "k");
    assert_eq!(at(&app), "- let x = 1;");
    press(&mut app, "e");
    assert_eq!(app.current_mode(), Mode::EditAnnotation(8));
    assert_eq!(editor_text(&app.input()), "two");
    app.handle_input(code(KeyCode::Esc), &no_disk());
    assert_eq!(app.current_mode(), Mode::Normal);
}

#[test]
fn annotations_are_listed() {
    let mut app = two_files();
    app.set_annotations(vec![
        note(1, "b.rs", 2, Side::New, "in b"),
        note(2, "a.rs", 12, Side::New, "in a, late"),
        note(3, "a.rs", 2, Side::New, "in a"),
        note(4, "gone.rs", 1, Side::New, "nowhere"),
    ]);
    app.build_display_lines(&no_disk());
    press(&mut app, "A");
    assert_eq!(app.current_mode(), Mode::AnnotationList);
    let entries = app.annotation_list_entries();
    assert_eq!(entries.iter().map(|e| e.id).collect::<Vec<_>>(), vec![3, 2, 1, 4]);
    let gone = entries.iter().position(|e| e.id == 4).unwrap();
    assert_eq!(entries[gone].display_idx, None);
    press(&mut app, &"j".repeat(gone));
    app.handle_input(code(KeyCode::Enter), &no_disk());
    assert_eq!(app.message(), Some("Annotation not present in current diff"));
    press(&mut app, "q");
    assert_eq!(app.current_mode(), Mode::Normal);
    let first = entries.iter().find(|e| e.id == 1).unwrap();
    assert!(first.display_idx.is_some());
}

#[test]
fn hunks_are_staged() {
    let mut app = two_files();
    press(&mut app, "jj");
    let action = press(&mut app, "s");
    match action {
        Action::Patch { kind, args, patch, file_idx, hunk_idx } => {
            assert_eq!(kind, PatchKind::Stage);
            assert_eq!((file_idx, hunk_idx), (0, 0));
            assert!(args.contains(&"--cached".to_string()));
            assert!(patch.starts_with("diff --git a/a.rs b/a.rs\n--- a/a.rs\n+++ b/a.rs\n@@ -1,3"));
            app.after_patch(kind, file_idx, hunk_idx, None, &no_disk());
        }
        a => panic!("{:?}", a),
    }
    assert_eq!(app.files()[0].hunks.len(), 1);
    assert_eq!(app.files()[0].hunks[0].new_start, 11);
    // The last hunk of a file takes the file with it.
    match press(&mut app, "s") {
        Action::Patch { kind, file_idx, hunk_idx, .. } => {
            app.after_patch(kind, file_idx, hunk_idx, None, &no_disk());
        }
        a => panic!("{:?}", a),
    }
    assert_eq!(app.files().len(), 1);
    assert_eq!(app.place_of_file("b.rs"), Some(0));
    assert_eq!(app.place_of_file("a.rs"), None);
    // A patch that git refuses changes nothing.
    match press(&mut app, "D") {
        Action::Patch { kind, file_idx, hunk_idx, .. } => {
            assert_eq!(kind, PatchKind::Discard);
            let error = Some(patch_error("error: patch failed\n"));
            app.after_patch(kind, file_idx, hunk_idx, error, &no_disk());
        }
        a => panic!("{:?}", a),
    }
    assert_eq!(app.files().len(), 1);
    assert!(app.message().unwrap().contains("patch failed"));
}

#[test]
fn views_are_toggled() {
    let mut app = two_files();
    assert!(matches!(press(&mut app, "u"), Action::LoadDiff));
    assert!(matches!(app.diff_mode(), DiffMode::Staged));
    assert!(matches!(press(&mut app, "u"), Action::LoadDiff));
    assert!(matches!(app.diff_mode(), DiffMode::Unstaged));
    let generation = app.generation();
    assert!(matches!(press(&mut app, "R"), Action::LoadDiff));
    assert_eq!(app.generation(), generation + 1);
    assert_eq!(app.message(), Some("Diff reloaded"));
    press(&mut app, "v");
    assert!(app.screen().side_by_side);
    press(&mut app, "v");
    assert!(!app.screen().side_by_side);
    let base = DiffMode::WorkingTree { base: "HEAD".to_string() };
    let mut app = App::new(1, Vec::new(), plain(), base, Vec::new(), None);
    assert!(matches!(press(&mut app, "u"), Action::Idle));
    assert_eq!(app.message(), Some("Only unstaged/staged views can be toggled"));
}

#[test]
fn changed_files_reload_after_a_pause() {
    let mut app = two_files();
    assert!(matches!(app.handle_fs_pending(Some(10_000)), Action::Idle));
    app.set_fs_pending(true);
    assert!(matches!(app.handle_fs_pending(Some(0)), Action::Idle));
    assert!(app.fs_pending());
    assert!(matches!(app.handle_fs_pending(Some(10_000)), Action::LoadDiff));
    assert!(!app.fs_pending());
}

#[test]
fn only_q_quits() {
    let mut app = two_files();
    assert!(matches!(press(&mut app, "?q"), Action::Idle));
    let mut app = two_files();
    press(&mut app, "a");
    assert!(matches!(press(&mut app, "q"), Action::Idle));
    assert_eq!(editor_text(&app.input()), "q");
    let mut app = two_files();
    assert!(matches!(press(&mut app, "z"), Action::Idle));
    assert!(matches!(press(&mut app, "q"), Action::Quit));
}

#[test]
fn help_scrolls() {
    assert_eq!(HELP_TEXT.split('\n').count(), 59);
    assert_eq!(help_line_count(), 59);
    let mut app = two_files();
    app.set_help_visible_height(50);
    press(&mut app, "?");
    assert!(app.shows_help());
    for _ in 0..20 {
        app.handle_wheel(false);
    }
    assert_eq!(app.help_scroll(), 59 - 50);
    app.handle_wheel(true);
    assert_eq!(app.help_scroll(), 59 - 51);
    press(&mut app, "?");
    assert!(!app.shows_help());
    let top = app.screen().scroll_offset;
    app.handle_wheel(true);
    assert_eq!(app.screen().scroll_offset, top.saturating_sub(3));
}

#[test]
fn lines_are_copied() {
    let mut app = two_files();
    match press(&mut app, "y") {
        Action::Copy(text) => assert_eq!(text, "before"),
        a => panic!("{:?}", a),
    }
    match press(&mut app, "Vjjy") {
        Action::Copy(text) => assert_eq!(text, "before\nlet x = 1;\nlet x = 2;"),
        a => panic!("{:?}", a),
    }
}

#[test]
fn ranges_are_annotated() {
    let mut app = two_files();
    press(&mut app, "jjVja");
    assert_eq!(app.current_mode(), Mode::AddAnnotation);
    assert_eq!(app.annotation_range(), Some((2, 3)));
}

#[test]
fn the_sidebar_follows() {
    let mut app = two_files();
    press(&mut app, "Bb");
    assert!(app.screen().sidebar_open);
    let focused = app.screen().sidebar_focused;
    if !focused {
        press(&mut app, "b");
    }
    press(&mut app, "j");
    assert_eq!(app.screen().sidebar_index, 1);
    let entries = app.sidebar_entries();
    assert_eq!(entries.len(), 2);
    assert_eq!((entries[1].file_idx, entries[1].path.as_str()), (1, "b.rs"));
    let rows = app.render_sidebar(10, &Palette::default());
    assert!(rows.len() >= 2);
}

fn text_of(row: &[Span]) -> String {
    row.iter().map(|s| s.text.clone()).collect()
}

#[test]
fn the_diff_is_drawn() {
    let mut app = two_files();
    let p = Palette::default();
    let items = app.render_diff_unified(80, 40, &p).unwrap();
    assert_eq!(items.len(), shown(&app).len());
    let rows: Vec<String> = items.iter().flatten().map(|r| text_of(r)).collect();
    assert!(rows.iter().any(|r| r.contains("let x = 2;") && r.contains('+')));
    assert!(rows.iter().any(|r| r.contains("a.rs")));
    app.toggle_layout();
    let beside = app.render_diff_side_by_side(80, 40, &p).unwrap();
    assert_eq!(beside.left.len(), beside.right.len());
    for (l, r) in beside.left.iter().zip(&beside.right) {
        assert_eq!(l.len(), r.len());
    }
    assert!(app.render_sticky_file_header(&p).is_none() || app.screen().scroll_offset > 0);
}

#[test]
fn the_status_line_says_where_we_are() {
    let mut app = two_files();
    let p = Palette::default();
    match app.render_status(&p) {
        Status::Line(s) => assert!(s.text.contains("[unstaged] ")),
        s => panic!("{:?}", s),
    }
    assert_eq!(app.status_height(80), 1);
    press(&mut app, "a");
    press(&mut app, "abc");
    match app.render_status(&p) {
        Status::Input { text, .. } => assert_eq!(text, "abc|"),
        s => panic!("{:?}", s),
    }
    assert_eq!(app.status_height(80), 3);
}

#[test]
fn answers_resolve_annotations() {
    let mut app = two_files();
    app.set_annotations(vec![note(7, "a.rs", 2, Side::New, "fix it")]);
    app.build_display_lines(&no_disk());
    press(&mut app, "gjj");
    let prompt = build_ai_prompt(&app.annotations()[0]);
    assert!(prompt.contains("- Annotation ID: 7\n- File: a.rs\n- Line: 2\n- Side: new\n"));
    assert!(prompt.ends_with("output a single line:\nRESOLVE_ANNOTATION: 7\n"));
    let job_id = match press(&mut app, "@") {
        Action::RunAi { job_id, target, args } => {
            assert_eq!(target, AiTarget::Claude);
            assert_eq!(args, ai_command(AiTarget::Claude, prompt));
            job_id
        }
        a => panic!("{:?}", a),
    };
    for text in ["working", "\\nRESOLVE_ANNOTATION: ", "7\\n"] {
        let chunk =
            format!("{{\"type\":\"content_block_delta\",\"delta\":{{\"text\":\"{}\"}}}}\n", text);
        app.handle_ai_event(AiEvent::Output { job_id, chunk });
    }
    assert_eq!(app.ai_jobs().len(), 1);
    assert_eq!(app.ai_jobs()[0].annotation_id, 7);
    assert_eq!(app.ai_jobs()[0].output, "working\nRESOLVE_ANNOTATION: 7\n");
    assert_eq!(app.ai_jobs()[0].status, AiStatus::Running);
    match app.handle_ai_event(AiEvent::Done { job_id, ok: true }) {
        Action::Store { statement, next } => {
            assert!(statement.sql.contains("resolved_at = CURRENT_TIMESTAMP"));
            assert!(matches!(statement.params[0], SqlValue::Int(7)));
            app.after_store(next, 0, vec![], &no_disk());
        }
        a => panic!("{:?}", a),
    }
    assert_eq!(app.ai_jobs()[0].status, AiStatus::Done { ok: true });
    assert_eq!(app.annotations().len(), 0);
    assert!(app.render_ai_pane(&Palette::default()).len() > 0);
}

#[test]
fn answers_are_read() {
    assert_eq!(extract_claude_text("no json"), None);
    assert_eq!(extract_claude_text("  "), None);
    assert_eq!(extract_claude_text("{\"type\":\"ping\"}"), None);
    assert_eq!(extract_claude_text(" {\"text\":\"t\"}\n"), Some("t".to_string()));
    assert_eq!(
        extract_claude_text("{\"type\":\"message_delta\",\"text\":\"m\"}"),
        Some("m".to_string())
    );
    assert_eq!(
        extract_claude_text("{\"type\":\"content_block_delta\",\"text\":\"t\"}"),
        Some("t".to_string())
    );
    assert_eq!(event_text("content_block_delta", Some("d".to_string()), None), Some("d".to_string()));
    assert!(wants_resolve("  RESOLVE_ANNOTATION  ", 9));
    assert!(wants_resolve("done\nRESOLVE_ANNOTATION: 7\n", 7));
    assert!(!wants_resolve("done\nRESOLVE_ANNOTATION: 7\n", 8));
    assert_eq!(ai_command(AiTarget::Codex, "p".to_string()), vec!["exec", "p"]);
    assert_eq!(
        ai_command(AiTarget::Claude, "p".to_string()),
        vec![
            "-p",
            "--verbose",
            "--output-format",
            "stream-json",
            "--include-partial-messages",
            "--",
            "p"
        ]
    );
}

#[test]
fn highlighting_is_scheduled_and_cached() {
    let mut app = App::new(1, Vec::new(), Config::default(), DiffMode::Unstaged, vec![], None);
    app.start_diff_stream(None);
    let generation = app.generation();
    let f = file("a.rs", vec![hunk(1, None)]);
    app.handle_diff_event(DiffStreamEvent::File { generation, file: f }, &no_disk());
    app.handle_diff_event(DiffStreamEvent::Done { generation, error: None }, &no_disk());
    let highlighted = |app: &App| {
        app.screen().display_lines.iter().any(|l| match l {
            DisplayLine::Diff { line, .. } => line.highlights.len() > 1,
            _ => false,
        })
    };
    assert!(highlighted(&app));
    assert_eq!(app.highlights().jobs.len(), 1);
    assert_eq!(app.highlights().jobs[0].file_key, "a.rs");
    assert_eq!(app.take_jobs().len(), 1);
    assert_eq!(app.highlights().jobs.len(), 0);
    let map = app.build_highlight_map("before\nlet x = 2;\nafter\n", "a.rs", &no_disk());
    let second = map[1].clone();
    app.handle_full_highlight_event(generation, "a.rs", map, &no_disk());
    // The lines that are shown have the highlights of the whole file.
    let line = app.screen().display_lines.iter().find_map(|l| match l {
        DisplayLine::Diff { line, .. } if line.new_line_no == Some(2) => Some(line),
        _ => None,
    });
    assert_eq!(line.unwrap().highlights, second);
    assert!(app.highlights().cache_new.contains_key("a.rs"));
    assert_eq!(app.highlights().inflight, 0);
    // Expanded, the file is highlighted from its text.
    press(&mut app, "x");
    assert!(highlighted(&app));
}

fn meta(c: KeyCode) -> Key {
    Key { meta: true, ..code(c) }
}

fn alt(c: KeyCode) -> Key {
    Key { alt: true, ..code(c) }
}

#[test]
fn keys_edit_the_text_input() {
    let mut app = two_files();
    press(&mut app, "a");
    press(&mut app, "one two");
    let text = |app: &App| render_input_with_cursor(&app.input());
    assert_eq!(text(&app), "one two|");
    app.handle_input(alt(KeyCode::Left), &no_disk());
    assert_eq!(text(&app), "one |two");
    app.handle_input(alt(KeyCode::Left), &no_disk());
    app.handle_input(alt(KeyCode::Right), &no_disk());
    assert_eq!(text(&app), "one |two");
    app.handle_input(ctrl('j'), &no_disk());
    assert_eq!(text(&app), "one \n|two");
    app.handle_input(meta(KeyCode::Right), &no_disk());
    assert_eq!(text(&app), "one \ntwo|");
    app.handle_input(meta(KeyCode::Left), &no_disk());
    assert_eq!(text(&app), "one \n|two");
    app.handle_input(meta(KeyCode::Backspace), &no_disk());
    assert_eq!(text(&app), "one |two");
    app.handle_input(meta(KeyCode::Delete), &no_disk());
    assert_eq!(text(&app), "one |");
    app.handle_input(code(KeyCode::Left), &no_disk());
    press(&mut app, "é");
    assert_eq!(text(&app), "oneé| ");
    app.handle_input(code(KeyCode::Backspace), &no_disk());
    app.handle_input(code(KeyCode::Delete), &no_disk());
    assert_eq!(text(&app), "one|");
    app.handle_input(meta(KeyCode::Backspace), &no_disk());
    assert_eq!(text(&app), "|");
    // Nothing is saved while nothing is typed, and a released key types nothing.
    let released = Key { released: true, ..key('z') };
    app.handle_input(released, &no_disk());
    assert!(matches!(app.handle_input(code(KeyCode::Enter), &no_disk()), Action::Idle));
    assert_eq!(app.current_mode(), Mode::AddAnnotation);
}

#[test]
fn queries_that_are_no_patterns_match_literally() {
    let mut h = hunk(1, None);
    h.lines[0].content = "a[b".to_string();
    let mut app = loaded(vec![file("a.rs", vec![h])]);
    press(&mut app, "/A[");
    app.handle_input(code(KeyCode::Enter), &no_disk());
    assert_eq!(app.message(), Some("Found 1 match"));
    assert_eq!(at(&app), "  a[b");
    assert!(app.is_search_match(app.screen().current_line_idx));
    assert!(app.is_current_search_match(app.screen().current_line_idx));
}

#[test]
fn updating_a_file_is_building_all() {
    let mut app = two_files();
    app.build_display_lines(&no_disk());
    let before = (shown(&app), app.screen().file_line_ranges.clone());
    for i in [0, 1] {
        app.update_display_lines_for_file(i, &no_disk());
        assert_eq!((shown(&app), app.screen().file_line_ranges.clone()), before);
    }
    // Lines of a changed file move those behind it.
    replace_first(&mut app, vec![hunk(1, None)]);
    let updated = shown(&app);
    app.build_display_lines(&no_disk());
    assert_eq!(shown(&app), updated);
    assert!(updated.len() < before.0.len());
}

#[test]
fn deleted_lines_are_shown_once() {
    let mut app = loaded(vec![file("a.rs", vec![hunk(1, None)])]);
    press(&mut app, "x");
    let lines = shown(&app);
    assert_eq!(
        lines,
        vec![
            "# a.rs",
            "  before",
            "- let x = 1;",
            "+ let x = 2;",
            "  after",
            "  more",
            "  last",
        ]
    );
}

#[test]
fn annotations_can_be_hidden() {
    for show in [true, false] {
        let mut config = plain();
        config.show_annotations = show;
        let mut app = App::new(1, Vec::new(), config, DiffMode::Unstaged, Vec::new(), None);
        app.start_diff_stream(None);
        let generation = app.generation();
        app.set_annotations(vec![note(1, "a.rs", 2, Side::New, "here")]);
        let f = file("a.rs", vec![hunk(1, None)]);
        app.handle_diff_event(DiffStreamEvent::File { generation, file: f }, &no_disk());
        assert_eq!(shown(&app).contains(&"! here".to_string()), show);
    }
}

#[test]
fn an_added_annotation_can_be_deleted() {
    let mut app = two_files();
    app.set_annotations(vec![note(1, "b.rs", 2, Side::New, "stays")]);
    press(&mut app, "a");
    press(&mut app, "new");
    match app.handle_input(code(KeyCode::Enter), &disk()) {
        Action::Store { next, .. } => app.after_store(next, 2, vec![], &disk()),
        a => panic!("{:?}", a),
    }
    assert_eq!(app.annotations().iter().map(|a| a.id).collect::<Vec<_>>(), vec![1, 2]);
    assert_eq!(app.message(), Some("Annotation added"));
    match press(&mut app, "d") {
        Action::Store { next, .. } => app.after_store(next, 0, vec![], &disk()),
        a => panic!("{:?}", a),
    }
    assert_eq!(app.annotations().iter().map(|a| a.id).collect::<Vec<_>>(), vec![1]);
    assert_eq!(app.message(), Some("Annotation deleted"));
}

#[test]
fn without_highlighting_lines_have_none() {
    let mut h = hunk(1, None);
    let style = differ::syntax::TextStyle { fg: (1, 2, 3), bold: true, italic: false, underline: false };
    for l in &mut h.lines {
        l.highlights.push(differ::diff::HighlightRange { start: 0, end: 2, style });
    }
    let app = loaded(vec![file("a.rs", vec![h])]);
    assert!(app.screen().display_lines.iter().all(|l| match l {
        DisplayLine::Diff { line, .. } => line.highlights.is_empty(),
        _ => true,
    }));
}

#[test]
fn other_files_keep_their_lines() {
    let mut app = two_files();
    app.build_display_lines(&no_disk());
    let (start, len) = app.screen().file_line_ranges[1].unwrap();
    let before = shown(&app)[start..start + len].to_vec();
    replace_first(&mut app, vec![hunk(11, None)]);
    let (start, now) = app.screen().file_line_ranges[1].unwrap();
    assert_eq!(now, len);
    assert_eq!(shown(&app)[start..start + len].to_vec(), before);
}
