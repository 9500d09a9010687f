use differ::compose::build_highlight_map_with;
use differ::diff::{HighlightRange, InlineRange};
use differ::outside::Editor;
use differ::palette::Palette;
use differ::paths::{extension, file_name};
use differ::render::{ink, row_of_hunk};
use differ::spans::{
    build_context_box, build_highlighted_spans, row_count, span_width, spans_width,
    split_by_width, truncate_spans, try_wrap_spans, wrap_spans_with_prefix, wrapped_line_count,
    LineStyle,
};
use differ::keys::{
    editor_is_empty, editor_text, editor_with_text, new_editor, render_input_with_cursor,
};
use differ::style::{apply_text_style, rgb, Span, Style};
use differ::syntax::{
    lines_with_endings, ranges_of_segments, to_highlight_map, to_text_style, Segment,
    SyntaxHighlighter, TextStyle,
};

fn highlighter() -> SyntaxHighlighter {
    SyntaxHighlighter::new(None, None)
}

#[test]
fn themes_are_chosen() {
    assert_eq!(highlighter().theme_name(), "Monokai Extended");
    assert_eq!(SyntaxHighlighter::new(None, Some("GitHub".to_string())).theme_name(), "GitHub");
    assert_eq!(
        SyntaxHighlighter::new(Some("Nord"), Some("GitHub".to_string())).theme_name(),
        "Nord"
    );
}

#[test]
fn code_is_highlighted() {
    let h = highlighter();
    let text = "fn main() {\n    let x = \"s\";\n}\n";
    let lines = h.highlight_file(text, "nowhere/main.rs", None);
    assert_eq!(lines.len(), 3);
    // The ranges tile each line with its newline.
    for (ranges, line) in lines.iter().zip(lines_with_endings(text)) {
        let mut at = 0;
        for r in ranges {
            assert_eq!(r.start, at);
            assert!(r.end > r.start);
            at = r.end;
        }
        assert_eq!(at, line.len());
    }
    assert!(lines[0].len() > 1);
    // Plain text has one style.
    let plain = h.highlight_file("fn main() {\n", "nowhere/notes.unknown-extension", None);
    assert_eq!(plain.len(), 1);
    assert!(plain[0].iter().all(|r| r.style == plain[0][0].style));
    assert_ne!(lines[0][0].style, plain[0][0].style);
}

#[test]
fn first_lines_ask_for_a_syntax() {
    let h = highlighter();
    let text = "if true; then echo \"$x\"; fi\n";
    let plain = h.highlight_file(text, "nowhere/script", None);
    assert!(plain[0].iter().all(|r| r.style == plain[0][0].style));
    let shell = h.highlight_file(text, "nowhere/script", Some("#!/bin/bash\n"));
    assert_eq!(shell, h.highlight_file(text, "nowhere/script.sh", None));
    assert_ne!(shell, plain);
    // The name of a file comes before its first line.
    let rust = h.highlight_file(text, "main.rs", Some("#!/bin/bash\n"));
    assert_eq!(rust, h.highlight_file(text, "main.rs", None));
    // A whole name can stand for a syntax.
    let make = h.highlight_file("all: x\n", "nowhere/Makefile", None);
    assert_ne!(make, h.highlight_file("all: x\n", "nowhere/script", None));
}

#[test]
fn paths_are_taken_apart() {
    for path in ["a/b.rs", "a/b/", "a/b/.", "a/..", "..", ".", "", "/", "//", "//a", "./.", "a//b.c",
        "x/./", ".bashrc", "a.tar.gz", "a.", "./a", "dir.d/file"] {
        let p = std::path::Path::new(path);
        let name = p.file_name().map(|n| n.to_str().unwrap().to_string());
        assert_eq!(file_name(path), name, "{}", path);
        let ext = p.extension().map(|e| e.to_str().unwrap().to_string());
        assert_eq!(name.and_then(|n| extension(&n)), ext, "{}", path);
    }
}

#[test]
fn themes_differ() {
    let text = "fn main() {}\n";
    let a = highlighter().highlight_file(text, "main.rs", None);
    let b = SyntaxHighlighter::new(Some("GitHub"), None).highlight_file(text, "main.rs", None);
    assert_ne!(a[0][0].style, b[0][0].style);
}

#[test]
fn lists_of_lines_keep_the_state() {
    let h = highlighter();
    let lines = vec!["/* open".to_string(), "fn main".to_string(), "*/ fn".to_string()];
    let v = h.highlight_lines(&lines, "main.rs", None);
    assert_eq!(v.len(), 3);
    for (ranges, line) in v.iter().zip(&lines) {
        assert_eq!(ranges.last().unwrap().end, line.len());
    }
    // The second line is inside of a comment.
    assert!(v[1].iter().all(|r| r.style == v[0].last().unwrap().style));
    let map = to_highlight_map(&v);
    assert_eq!(map[2].len(), v[2].len());
    assert_eq!(map[2][0].style, v[2][0].style);
    let whole = build_highlight_map_with(&h, "/* open\nfn main\n*/ fn", "main.rs", None);
    assert_eq!(whole.len(), 3);
}

#[test]
fn segments_become_ranges() {
    let seg = |text: &str, font: u8| Segment { color: (1, 2, 3), font, text: text.to_string() };
    let v = ranges_of_segments(&[seg("ab", 1), seg("", 0), seg("é\n", 6)], false);
    assert_eq!(v.iter().map(|r| (r.start, r.end)).collect::<Vec<_>>(), vec![(0, 2), (2, 5)]);
    let v = ranges_of_segments(&[seg("ab", 1), seg("é\n", 6), seg("\n", 0)], true);
    assert_eq!(v.iter().map(|r| (r.start, r.end)).collect::<Vec<_>>(), vec![(0, 2), (2, 4)]);
    let s = to_text_style((9, 8, 7), 1 | 4);
    assert_eq!(s, TextStyle { fg: (9, 8, 7), bold: true, italic: true, underline: false });
    assert!(to_text_style((0, 0, 0), 2).underline);
}

fn base() -> Style {
    Style::plain().fg(rgb(1, 1, 1))
}

fn texts(v: &[Span]) -> Vec<String> {
    v.iter().map(|s| s.text.clone()).collect()
}

#[test]
fn spans_carry_highlights_and_changes() {
    let style = LineStyle {
        base: base(),
        is_current: false,
        current_line_bg: rgb(9, 9, 9),
        inline_bg: Some(rgb(5, 5, 5)),
    };
    let bold = TextStyle { fg: (7, 7, 7), bold: true, italic: false, underline: false };
    let highlights = [HighlightRange { start: 2, end: 6, style: bold }];
    let inline = [InlineRange { start: 4, end: 8 }];
    let v = build_highlighted_spans("0123456789", &highlights, &inline, &style);
    assert_eq!(texts(&v), vec!["01", "23", "45", "67", "89"]);
    assert_eq!(v[0].style, base());
    assert_eq!(v[1].style, apply_text_style(base(), bold, false));
    assert!(v[1].style.bold);
    assert_eq!(v[1].style.fg, Some(rgb(7, 7, 7)));
    assert_eq!(v[2].style.bg, Some(rgb(5, 5, 5)));
    assert_eq!(v[3].style.bg, Some(rgb(5, 5, 5)));
    assert!(v[3].style.bold);
    assert_eq!(v[3].style.fg, base().fg);
    assert_eq!(v[4].style, base());
    assert_eq!(texts(&build_highlighted_spans("plain", &[], &[], &style)), vec!["plain"]);
}

#[test]
fn widths_count_columns() {
    assert_eq!(span_width(&Span::of("日本a", base())), 5);
    assert_eq!(spans_width(&[Span::of("ab", base()), Span::of("日", base())]), 4);
    assert_eq!(split_by_width("日本a", 3), ("日".to_string(), "本a".to_string()));
    assert_eq!(split_by_width("abc", 0), (String::new(), "abc".to_string()));
    assert_eq!(split_by_width("abc", 9), ("abc".to_string(), String::new()));
    let v = truncate_spans(&[Span::of("ab", base()), Span::of("cdef", base())], 4);
    assert_eq!(texts(&v), vec!["ab", "cd"]);
    assert_eq!(row_count(0, 10), 1);
    assert_eq!(row_count(10, 10), 1);
    assert_eq!(row_count(11, 10), 2);
    assert_eq!(wrapped_line_count("", 10), 1);
    assert_eq!(wrapped_line_count("0123456789a\n\nb", 10), 4);
}

#[test]
fn long_lines_are_wrapped() {
    let spans = [Span::of("abcd", base()), Span::of("日本", base())];
    let rows = try_wrap_spans(&spans, 3).unwrap();
    let rows: Vec<String> = rows.iter().map(|r| texts(r).concat()).collect();
    assert_eq!(rows, vec!["abc", "d日", "本"]);
    // No row has room for a character of two columns.
    assert!(try_wrap_spans(&spans, 1).is_none());

    let prefix = [Span::of("> ", base())];
    let rows = wrap_spans_with_prefix(&prefix, &[Span::of("abcd", base())], 4, base()).unwrap();
    let rows: Vec<String> = rows.iter().map(|r| texts(r).concat()).collect();
    assert_eq!(rows, vec!["> ab", "  cd"]);
}

#[test]
fn context_is_boxed() {
    let rows = build_context_box(&[Span::of("12 ", base())], &[Span::of("fn f", base())], 12, base());
    let rows: Vec<String> = rows.iter().map(|r| texts(r).concat()).collect();
    assert_eq!(rows, vec!["┌──────────┐", "│ 12  fn f │", "└──────────┘"]);
    let rows = build_context_box(&[Span::of("12", base())], &[Span::of("fn", base())], 3, base());
    assert_eq!(rows.len(), 1);
    assert_eq!(texts(&rows[0]), vec!["12", "fn"]);
}

#[test]
fn hunks_have_a_row() {
    let p = Palette::default();
    let row = row_of_hunk(12, 3, 0, &p);
    assert_eq!(texts(&row), vec![" +3 -0 ", "starting at line 12 "]);
    assert_eq!(ink(rgb(1, 2, 3)).fg, Some(rgb(1, 2, 3)));
}

#[test]
fn the_text_input_edits() {
    let e: Editor = new_editor();
    assert!(editor_is_empty(&e));
    assert_eq!(editor_text(&e), "");
    let e = editor_with_text("one\ntwo");
    assert!(!editor_is_empty(&e));
    assert_eq!(editor_text(&e), "one\ntwo");
    assert_eq!(render_input_with_cursor(&e), "one\ntwo|");
}
