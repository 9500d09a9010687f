use differ::annotate::{build_anchor, build_anchor_from_file};
use differ::args::{
    is_git_external_diff_args, list_text, no_changes_message, parse_diff_args, parse_format,
    prepare_annotation, ArgError,
};
use differ::diff::DiffMode;
use differ::export::{
    annotation_code_excerpt, append_markdown_code_context, export_markdown, line_range_text,
    ExportFormat,
};
use differ::storage::{Annotation, AnnotationType, Side};

fn list(v: &[&str]) -> Vec<String> {
    v.iter().map(|s| s.to_string()).collect()
}

fn mode_text(m: &DiffMode) -> String {
    format!("{:?}", m)
}

fn parsed(v: &[&str], staged: bool) -> (String, Vec<String>) {
    let r = parse_diff_args(&list(v), staged);
    (mode_text(&r.mode), r.paths)
}

#[test]
fn diff_usages() {
    assert_eq!(parsed(&[], false), ("Unstaged".to_string(), vec![]));
    assert_eq!(parsed(&[], true), ("Staged".to_string(), vec![]));
    assert_eq!(parsed(&["HEAD"], false), ("WorkingTree { base: \"HEAD\" }".to_string(), vec![]));
    assert_eq!(
        parsed(&["main..feature"], false),
        ("Commits { from: \"main\", to: \"feature\" }".to_string(), vec![])
    );
    assert_eq!(
        parsed(&["HEAD~3..HEAD"], false),
        ("Commits { from: \"HEAD~3\", to: \"HEAD\" }".to_string(), vec![])
    );
    assert_eq!(
        parsed(&["main...feature"], false),
        ("MergeBase { from: \"main\", to: \"feature\" }".to_string(), vec![])
    );
    assert_eq!(
        parsed(&["a", "b", "c"], false),
        ("Commits { from: \"a\", to: \"b\" }".to_string(), vec![])
    );
    assert_eq!(parsed(&["--", "src/"], false), ("Unstaged".to_string(), list(&["src/"])));
    assert_eq!(
        parsed(&["HEAD", "--", "a", "--", "b"], false),
        ("WorkingTree { base: \"HEAD\" }".to_string(), list(&["a", "--", "b"]))
    );
    assert_eq!(parsed(&["HEAD", "--", "a"], true), ("Staged".to_string(), list(&["a"])));
    assert_eq!(
        parsed(&["a..b..c"], false),
        ("Commits { from: \"a\", to: \"b..c\" }".to_string(), vec![])
    );
    assert_eq!(
        parsed(&[".."], false),
        ("Commits { from: \"\", to: \"\" }".to_string(), vec![])
    );
}

#[test]
fn external_diff_arguments() {
    let hex = "0123456789012345678901234567890123456789";
    let args = ["path", "/tmp/old", hex, "100644", "/tmp/new", hex, "100644"];
    assert!(is_git_external_diff_args(&list(&args)));
    assert_eq!(
        parsed(&args, false),
        (
            "ExternalDiff { path: \"path\", old_file: \"/tmp/old\", new_file: \"/tmp/new\" }"
                .to_string(),
            vec![]
        )
    );
    assert!(!is_git_external_diff_args(&list(&args[..6])));
    assert!(!is_git_external_diff_args(&list(&["p", "o", "0", "m", "n", hex, "m"])));
}

#[test]
fn nothing_to_show() {
    let s = |v: &[&str], staged: bool| no_changes_message(&parse_diff_args(&list(v), staged).mode);
    assert_eq!(s(&[], false), "No unstaged changes");
    assert_eq!(s(&[], true), "No staged changes");
    assert_eq!(s(&["HEAD"], false), "No changes against HEAD");
    assert_eq!(s(&["a..b"], false), "No changes between a and b");
    assert_eq!(s(&["a...b"], false), "No changes between a and b (merge-base)");
    let mode = DiffMode::ExternalDiff {
        path: "p".to_string(),
        old_file: "o".to_string(),
        new_file: "n".to_string(),
    };
    assert_eq!(no_changes_message(&mode), "No changes in p");
}

fn annotation(id: i64, path: &str, line: u32, kind: AnnotationType, content: &str) -> Annotation {
    Annotation {
        id,
        repo_id: 1,
        file_path: path.to_string(),
        commit_sha: None,
        side: Side::New,
        start_line: line,
        end_line: None,
        annotation_type: kind,
        content: content.to_string(),
        anchor_line: line,
        anchor_text: String::new(),
        context_before: String::new(),
        context_after: String::new(),
        created_at: String::new(),
        resolved_at: None,
    }
}

#[test]
fn annotations_are_printed_by_file() {
    assert_eq!(list_text(&[]), "No annotations found\n");
    let mut old = annotation(-3, "b.rs", 7, AnnotationType::Comment, "gone");
    old.side = Side::Old;
    old.end_line = Some(9);
    let all = [
        annotation(1, "a.rs", 2, AnnotationType::Comment, "one"),
        annotation(2, "a.rs", 5, AnnotationType::Todo, "two"),
        old,
    ];
    assert_eq!(
        list_text(&all),
        "a.rs:\n  #1 [C] L2: one\n  #2 [T] L5: two\n\nb.rs:\n  #-3 [C] L7-9 (old): gone\n"
    );
}

#[test]
fn annotations_from_the_command_line() {
    let text = "l1\nl2\nl3\nl4\nl5\nl6\n";
    let a = prepare_annotation("f.rs", 4, Some(5), "todo", "do it", Some(text)).unwrap();
    assert_eq!(a.file_path, "f.rs");
    assert_eq!(a.side, Side::New);
    assert_eq!((a.start_line, a.end_line), (4, Some(5)));
    assert_eq!(a.annotation_type, AnnotationType::Todo);
    assert_eq!(a.content, "do it");
    assert_eq!(a.commit_sha, None);
    assert_eq!((a.anchor_line, a.anchor_text.as_str()), (4, "l4"));
    assert_eq!(a.context_before, "l2\nl3");
    assert_eq!(a.context_after, "l5\nl6");

    let a = prepare_annotation("f.rs", 4, None, "comment", "c", None).unwrap();
    assert_eq!((a.anchor_line, a.anchor_text.as_str()), (4, ""));
    assert_eq!(a.annotation_type, AnnotationType::Comment);

    let e = prepare_annotation("f.rs", 4, None, "ai_prompt", "c", None).unwrap_err();
    assert_eq!(e, ArgError::InvalidAnnotationType);
    assert_eq!(e.message(), "Invalid annotation type. Use: comment or todo");
}

#[test]
fn anchors_hold_the_lines_around() {
    let lines = list(&["l1", "l2", "l3", "l4", "l5"]);
    let a = build_anchor(&lines, 1);
    assert_eq!((a.line, a.text.as_str(), a.before.as_str(), a.after.as_str()),
        (1, "l1", "", "l2\nl3"));
    let a = build_anchor(&lines, 5);
    assert_eq!((a.line, a.text.as_str(), a.before.as_str(), a.after.as_str()),
        (5, "l5", "l3\nl4", ""));
    let a = build_anchor_from_file(None, 9);
    assert_eq!((a.line, a.text.as_str(), a.before.as_str(), a.after.as_str()), (9, "", "", ""));
}

#[test]
fn formats_have_names() {
    assert_eq!(ExportFormat::from_str("md"), Some(ExportFormat::Markdown));
    assert_eq!(ExportFormat::from_str("MarkDown"), Some(ExportFormat::Markdown));
    assert_eq!(ExportFormat::from_str("JSON"), Some(ExportFormat::Json));
    // The sign for degrees Kelvin is a capital letter k.
    assert_eq!(ExportFormat::from_str("mar\u{212a}down"), Some(ExportFormat::Markdown));
    assert_eq!(ExportFormat::from_lower_case("JSON"), None);
    assert_eq!(parse_format("json"), Ok(ExportFormat::Json));
    let e = parse_format("xml").unwrap_err();
    assert_eq!(e, ArgError::InvalidFormat);
    assert_eq!(e.message(), "Invalid format. Use: markdown (md) or json");
}

#[test]
fn markdown_is_exact() {
    let mut todo = annotation(1, "z.rs", 3, AnnotationType::Todo, "first\nsecond");
    todo.anchor_text = "code();".to_string();
    todo.context_before = "b1\nb2".to_string();
    todo.context_after = "a1".to_string();
    let mut comment = annotation(2, "a.rs", 4, AnnotationType::Comment, "why?");
    comment.side = Side::Old;
    comment.end_line = Some(6);
    comment.commit_sha = Some("0123456789abcdef".to_string());
    let mut late = annotation(3, "z.rs", 9, AnnotationType::Todo, "");
    late.anchor_text = "ends\n".to_string();
    assert_eq!(
        export_markdown(&[todo, comment, late]),
        "# Code Annotations\n\n\
         ## a.rs\n\n\
         ### 💬 L4-6 (deleted code)\n\nwhy?\n\n\
         _Commit: 0123456_\n\n\
         ## z.rs\n\n\
         - [ ] L3: first\n  second\n\n\
         **Code context:**\n\n```text\nb1\nb2\ncode();\na1\n```\n\n\
         - [ ] L9: \n\n\
         **Code context:**\n\n```text\nends\n```\n\n"
    );
}

#[test]
fn excerpts_need_text() {
    let mut a = annotation(1, "f", 1, AnnotationType::Comment, "c");
    assert_eq!(annotation_code_excerpt(&a), None);
    let mut out = "x".to_string();
    append_markdown_code_context(&mut out, &a);
    assert_eq!(out, "x");
    a.context_after = "after".to_string();
    assert_eq!(annotation_code_excerpt(&a), Some("after".to_string()));
    append_markdown_code_context(&mut out, &a);
    assert_eq!(out, "x**Code context:**\n\n```text\nafter\n```\n\n");
    assert_eq!(line_range_text(&a), "L1");
}
