//! The diff as styled text: one below the other, or side by side.
use vstd::prelude::*;

use crate::diff::{
    hunk_views, DiffHunk, DiffHunkV, DiffLine, DiffLineV, HighlightRange, InlineRange, LineKind,
};
use crate::display::{
    annotated_line_no, annotated_side, annotation_marker_for_line, count_kind, count_lines,
    marker_of, DisplayLine, DisplayLineV,
};
use crate::number::{dec, decimal, padded_dec, padded_decimal, wide_decimal};
use crate::palette::Palette;
use crate::screen::{annotation_label, annotation_label_text, lesser, ScreenV};
use crate::spans::{
    all_fit, boxed, build_context_box, build_highlighted_spans, capped_sum, highlighted,
    room_beside, wrap_spans_with_prefix, wrapped_beside, LineStyle,
};
use crate::state::{App, AppV};
use crate::storage::{Annotation, AnnotationType, AnnotationV, Side};
use crate::style::{plain_style, row_views, span, span_views, Color, Span, SpanV, Style};
use crate::text::{lines, lines_of, repeat_char, repeated, texts};

verus! {

/// The rows of an item.
pub open spec fn item_views(items: Seq<Vec<Vec<Span>>>) -> Seq<Seq<Seq<SpanV>>> {
    Seq::new(items.len(), |i: int| row_views(items[i]@))
}

/// How many lines of a kind the hunks have.
pub open spec fn hunks_count(hunks: Seq<DiffHunkV>, kind: LineKind) -> nat
    decreases hunks.len(),
{
    if hunks.len() == 0 {
        0
    } else {
        hunks_count(hunks.drop_last(), kind) + count_kind(hunks.last().lines, kind)
    }
}

/// A style on the background of a line, if that line stands out: the current
/// line or a selected one.
pub open spec fn lifted(style: Style, current: bool, selected: bool, p: Palette) -> Style {
    if current {
        style.with_bg(p.current_line_bg)
    } else if selected {
        style.with_bg(p.selection_bg)
    } else {
        style
    }
}

/// A style with a foreground colour.
pub open spec fn inked(c: Color) -> Style {
    plain_style().with_fg(c)
}

/// The style of a line's text.
pub open spec fn content_style(kind: LineKind, current: bool, selected: bool, p: Palette) -> Style {
    let style = match kind {
        LineKind::Addition => inked(p.context_fg).with_bg(p.added_bg),
        LineKind::Deletion => inked(p.context_fg).with_bg(p.deleted_bg),
        LineKind::Context => inked(p.context_fg),
    };
    if selected && !current {
        style.with_bg(p.selection_bg)
    } else {
        style
    }
}

/// The colour of a line's number.
pub open spec fn number_color(kind: LineKind, p: Palette) -> Color {
    match kind {
        LineKind::Addition => p.added_fg,
        LineKind::Deletion => p.deleted_fg,
        LineKind::Context => p.line_num,
    }
}

/// The background of the ranges of a line that have changed.
pub open spec fn changed_bg(kind: LineKind, p: Palette) -> Option<Color> {
    match kind {
        LineKind::Addition => Some(p.intraline_added_bg),
        LineKind::Deletion => Some(p.intraline_deleted_bg),
        LineKind::Context => None,
    }
}

/// The text of a line.
pub open spec fn content_spans(line: DiffLineV, current: bool, selected: bool, p: Palette) -> Seq<
    SpanV,
> {
    highlighted(
        line.content,
        line.highlights,
        line.inline_ranges,
        LineStyle {
            base: content_style(line.kind, current, selected, p),
            is_current: current,
            current_line_bg: if selected {
                p.selection_bg
            } else {
                p.current_line_bg
            },
            inline_bg: changed_bg(line.kind, p),
        },
    )
}

/// The style of an annotation.
pub open spec fn annotation_style(
    annotation_type: AnnotationType,
    resolved: bool,
    orphaned: bool,
    p: Palette,
) -> Style {
    let ground = match annotation_type {
        AnnotationType::Comment => p.annotation_bg,
        AnnotationType::Todo => p.todo_bg,
    };
    if resolved {
        inked(p.resolved_fg).with_bg(p.resolved_bg).with_italic()
    } else if orphaned {
        inked(p.deleted_fg).with_bg(ground).with_italic()
    } else {
        match annotation_type {
            AnnotationType::Comment => inked(p.annotation_fg).with_bg(ground),
            AnnotationType::Todo => inked(p.todo_fg).with_bg(ground).with_bold(),
        }
    }
}

/// The lines of an annotation's text, at least an empty one.
pub open spec fn note_lines(content: Seq<char>) -> Seq<Seq<char>> {
    if content.len() == 0 {
        seq![Seq::<char>::empty()]
    } else {
        lines_of(content)
    }
}

/// The prefix and the text of line `i` of an annotation.
pub open spec fn note_line(
    a: AnnotationV,
    orphaned: bool,
    side_by_side: bool,
    p: Palette,
    i: int,
) -> (SpanV, SpanV) {
    let resolved = a.resolved_at is Some;
    let style = annotation_style(a.annotation_type, resolved, orphaned, p);
    (
        span(
            if i == 0 {
                annotation_label(a.annotation_type, resolved, orphaned, side_by_side)
            } else if side_by_side {
                "      "@
            } else {
                "       "@
            },
            style,
        ),
        span(note_lines(a.content)[i], style),
    )
}

/// The rows of the first `n` lines of an annotation.
pub open spec fn note_rows(
    a: AnnotationV,
    orphaned: bool,
    side_by_side: bool,
    width: int,
    p: Palette,
    n: int,
) -> Seq<Seq<SpanV>>
    decreases n,
{
    if n <= 0 {
        Seq::empty()
    } else {
        let (prefix, text) = note_line(a, orphaned, side_by_side, p, n - 1);
        note_rows(a, orphaned, side_by_side, width, p, n - 1) + wrapped_beside(
            seq![prefix],
            seq![text],
            width,
            prefix.style,
        )
    }
}

/// Whether every character of an annotation has room.
pub open spec fn note_fits(
    a: AnnotationV,
    orphaned: bool,
    side_by_side: bool,
    width: int,
    p: Palette,
) -> bool {
    forall|i: int|
        0 <= i < note_lines(a.content).len() ==> ({
            let (prefix, text) = #[trigger] note_line(a, orphaned, side_by_side, p, i);
            all_fit(seq![text], room_beside(seq![prefix], width))
        })
}

/// The header of a file in the display.
pub open spec fn header_row(
    app: AppV,
    i: int,
    path: Seq<char>,
    file_idx: int,
    side_by_side: bool,
    p: Palette,
) -> Seq<SpanV> {
    let (fg, bg) = if app.is_current_match(i) {
        (p.header_match_fg, p.header_match_bg)
    } else if app.is_match(i) {
        (p.header_dim_fg, p.header_dim_bg)
    } else {
        (p.header_fg, p.header_bg)
    };
    let style = inked(fg).with_bg(bg).with_bold();
    let shown = if i == app.screen.cursor {
        style.with_bg(p.header_focus_bg).with_underline()
    } else {
        style
    };
    let hunks = if 0 <= file_idx < app.files.len() {
        app.files[file_idx].hunks
    } else {
        Seq::empty()
    };
    seq![
        span(
            " Δ "@ + path + (if app.screen.collapsed.contains(path) {
                " ▶"@
            } else {
                ""@
            }) + (if side_by_side {
                " "@
            } else {
                "  "@
            }),
            shown,
        ),
        span(
            "+"@ + dec(hunks_count(hunks, LineKind::Addition)) + " "@,
            inked(p.added_fg).with_bg(bg),
        ),
        span(
            "-"@ + dec(hunks_count(hunks, LineKind::Deletion)) + " "@,
            inked(p.deleted_fg).with_bg(bg),
        ),
    ]
}

/// The context line of a hunk, in a box.
pub open spec fn context_rows(
    text: Seq<char>,
    line_no: u32,
    highlights: Seq<HighlightRange>,
    width: int,
    p: Palette,
) -> Seq<Seq<SpanV>> {
    let style = inked(p.hunk_ctx_fg).with_bg(p.hunk_ctx_bg);
    boxed(
        seq![span(padded_dec(line_no as nat, 4), style.with_bold())],
        highlighted(
            text,
            highlights,
            Seq::empty(),
            LineStyle {
                base: style,
                is_current: false,
                current_line_bg: p.hunk_ctx_bg,
                inline_bg: None,
            },
        ),
        width,
        style,
    )
}

/// The header of a hunk.
pub open spec fn hunk_row(line_no: u32, additions: nat, deletions: nat, p: Palette) -> Seq<SpanV> {
    let style = inked(p.hunk_fg).with_bg(p.hunk_bg);
    seq![
        span(
            " +"@ + dec(additions) + " -"@ + dec(deletions) + " "@,
            style.with_bold(),
        ),
        span("starting at line "@ + dec(line_no as nat) + " "@, style),
    ]
}

/// The end of a hunk.
pub open spec fn end_row(width: int, p: Palette) -> Seq<SpanV> {
    seq![span("╰"@ + repeated('─', width), inked(p.hunk_border))]
}

/// The mark of annotations beside a line.
pub open spec fn marker_span(
    app: AppV,
    line: DiffLineV,
    path: Seq<char>,
    current: bool,
    selected: bool,
    p: Palette,
) -> SpanV {
    span(
        seq![
            match marker_of(app.annotations, path, annotated_side(line), annotated_line_no(line)) {
                Some(c) => c,
                None => ' ',
            },
        ],
        lifted(inked(p.annotation_marker), current, selected, p),
    )
}

/// What stands in front of a line.
pub open spec fn unified_prefix(
    app: AppV,
    line: DiffLineV,
    path: Seq<char>,
    current: bool,
    selected: bool,
    p: Palette,
) -> Seq<SpanV> {
    seq![
        marker_span(app, line, path, current, selected, p),
        span(
            padded_dec(annotated_line_no(line) as nat, 4),
            lifted(inked(number_color(line.kind, p)), current, selected, p),
        ),
        span(" "@, plain_style()),
        match line.kind {
            LineKind::Addition => span("+ "@, inked(p.added_fg).with_bg(p.added_bg)),
            LineKind::Deletion => span("- "@, inked(p.deleted_fg).with_bg(p.deleted_bg)),
            LineKind::Context => span("  "@, inked(p.context_fg)),
        },
    ]
}

impl AppV {
    /// Whether a line is selected.
    pub open spec fn selected_at(self, i: int) -> bool {
        self.screen.selection() matches Some((a, b)) && a <= i <= b
    }

    /// A line of the display as an item of the list, one below the other.
    pub open spec fn unified_item(self, line: DisplayLineV, i: int, width: int, p: Palette) -> Seq<
        Seq<SpanV>,
    > {
        let current = i == self.screen.cursor;
        let selected = self.selected_at(i);
        match line {
            DisplayLineV::Spacer => seq![Seq::<SpanV>::empty()],
            DisplayLineV::FileHeader { path, file_idx } => seq![
                header_row(self, i, path, file_idx, false, p),
            ],
            DisplayLineV::HunkContext { text, line_no, highlights } => context_rows(
                text,
                line_no,
                highlights,
                width,
                p,
            ),
            DisplayLineV::HunkHeader { line_no, additions, deletions, .. } => seq![
                hunk_row(line_no, additions, deletions, p),
            ],
            DisplayLineV::HunkEnd { .. } => seq![end_row(30, p)],
            DisplayLineV::Diff { line: l, file_path, .. } => wrapped_beside(
                unified_prefix(self, l, file_path, current, selected, p),
                content_spans(l, current, selected, p),
                width,
                content_style(l.kind, current, selected, p),
            ),
            DisplayLineV::Annotation { annotation, orphaned, .. } => note_rows(
                annotation,
                orphaned,
                false,
                width,
                p,
                note_lines(annotation.content).len() as int,
            ),
        }
    }

    /// Whether every character of a line has room, one below the other.
    pub open spec fn unified_fits(self, line: DisplayLineV, i: int, width: int, p: Palette) -> bool {
        let current = i == self.screen.cursor;
        let selected = self.selected_at(i);
        match line {
            DisplayLineV::Diff { line: l, file_path, .. } => all_fit(
                content_spans(l, current, selected, p),
                room_beside(unified_prefix(self, l, file_path, current, selected, p), width),
            ),
            DisplayLineV::Annotation { annotation, orphaned, .. } => note_fits(
                annotation,
                orphaned,
                false,
                width,
                p,
            ),
            _ => true,
        }
    }

    /// The items of the lines that may be in view, one below the other. The
    /// lines are given with their highlights.
    pub open spec fn unified_list(
        self,
        lines: Seq<DisplayLineV>,
        width: int,
        height: int,
        p: Palette,
    ) -> Seq<Seq<Seq<SpanV>>> {
        let from = self.screen.scroll;
        let end = self.view_end(height);
        Seq::new(
            if from <= end {
                (end - from) as nat
            } else {
                0
            },
            |k: int| self.unified_item(lines[from + k], from + k, width, p),
        )
    }

    /// Whether every character of the lines that may be in view has room.
    pub open spec fn unified_list_fits(
        self,
        lines: Seq<DisplayLineV>,
        width: int,
        height: int,
        p: Palette,
    ) -> bool {
        forall|i: int|
            self.screen.scroll <= i < self.view_end(height) ==> self.unified_fits(
                #[trigger] lines[i],
                i,
                width,
                p,
            )
    }

    /// The end of the lines that may be in view.
    pub open spec fn view_end(self, height: int) -> int {
        lesser(self.screen.scroll + height, self.screen.lines.len() as int)
    }
}

// ---------------------------------------------------------------------------
// Pieces
// ---------------------------------------------------------------------------
fn count_in_hunks(hunks: &[DiffHunk], kind: LineKind) -> (n: u128)
    ensures
        n == hunks_count(hunk_views(hunks@), kind),
{
    let ghost hv = hunk_views(hunks@);
    let mut n: u128 = 0;
    let mut i: usize = 0;
    assert(hv.take(0) =~= Seq::empty());
    while i < hunks.len()
        invariant
            i <= hunks@.len(),
            hv == hunk_views(hunks@),
            n == hunks_count(hv.take(i as int), kind),
            n <= i * 0xffff_ffff_ffff_ffff,
        decreases hunks@.len() - i,
    {
        proof {
            assert(hv.take(i + 1).drop_last() =~= hv.take(i as int));
            assert(hv.take(i + 1).last() == hunks@[i as int]@);
        }
        let more = count_lines(&hunks[i].lines, kind);
        assert(i as int * 0xffff_ffff_ffff_ffff + more <= (i + 1) * 0xffff_ffff_ffff_ffff);
        assert((i + 1) * 0xffff_ffff_ffff_ffff <= 0xffff_ffff_ffff_ffff * 0xffff_ffff_ffff_ffff);
        n = n + more as u128;
        i = i + 1;
    }
    assert(hv.take(i as int) =~= hv);
    n
}

fn lift(style: Style, current: bool, selected: bool, p: &Palette) -> (r: Style)
    ensures
        r == lifted(style, current, selected, *p),
{
    if current {
        style.bg(p.current_line_bg)
    } else if selected {
        style.bg(p.selection_bg)
    } else {
        style
    }
}

/// A style with a foreground colour.
pub fn ink(c: Color) -> (r: Style)
    ensures
        r == inked(c),
{
    Style::plain().fg(c)
}

/// The style of a line's text.
pub fn style_of_content(kind: LineKind, current: bool, selected: bool, p: &Palette) -> (r: Style)
    ensures
        r == content_style(kind, current, selected, *p),
{
    let style = match kind {
        LineKind::Addition => ink(p.context_fg).bg(p.added_bg),
        LineKind::Deletion => ink(p.context_fg).bg(p.deleted_bg),
        LineKind::Context => ink(p.context_fg),
    };
    if selected && !current {
        style.bg(p.selection_bg)
    } else {
        style
    }
}

/// The style of a line's number.
pub fn style_of_number(kind: LineKind, current: bool, selected: bool, p: &Palette) -> (r: Style)
    ensures
        r == lifted(inked(number_color(kind, *p)), current, selected, *p),
{
    let fg = match kind {
        LineKind::Addition => p.added_fg,
        LineKind::Deletion => p.deleted_fg,
        LineKind::Context => p.line_num,
    };
    lift(ink(fg), current, selected, p)
}

/// The text of a line.
pub fn spans_of_content(line: &DiffLine, current: bool, selected: bool, p: &Palette) -> (v: Vec<Span>)
    ensures
        span_views(v@) == content_spans(line@, current, selected, *p),
{
    let style = LineStyle {
        base: style_of_content(line.kind, current, selected, p),
        is_current: current,
        current_line_bg: if selected {
            p.selection_bg
        } else {
            p.current_line_bg
        },
        inline_bg: match line.kind {
            LineKind::Addition => Some(p.intraline_added_bg),
            LineKind::Deletion => Some(p.intraline_deleted_bg),
            LineKind::Context => None,
        },
    };
    build_highlighted_spans(line.content.as_str(), &line.highlights, &line.inline_ranges, &style)
}

fn style_of_annotation(a: &Annotation, orphaned: bool, p: &Palette) -> (r: Style)
    ensures
        r == annotation_style(a@.annotation_type, a@.resolved_at is Some, orphaned, *p),
{
    let ground = match a.annotation_type {
        AnnotationType::Comment => p.annotation_bg,
        AnnotationType::Todo => p.todo_bg,
    };
    if a.resolved_at.is_some() {
        ink(p.resolved_fg).bg(p.resolved_bg).italic()
    } else if orphaned {
        ink(p.deleted_fg).bg(ground).italic()
    } else {
        match a.annotation_type {
            AnnotationType::Comment => ink(p.annotation_fg).bg(ground),
            AnnotationType::Todo => ink(p.todo_fg).bg(ground).bold(),
        }
    }
}

/// A row of one span.
fn row_of(s: Span) -> (v: Vec<Span>)
    ensures
        span_views(v@) == seq![s@],
{
    let mut v: Vec<Span> = Vec::new();
    v.push(s);
    assert(span_views(v@) =~= seq![s@]);
    v
}

/// An item of one row.
pub fn item_of(row: Vec<Span>) -> (v: Vec<Vec<Span>>)
    ensures
        row_views(v@) == seq![span_views(row@)],
{
    let mut v: Vec<Vec<Span>> = Vec::new();
    v.push(row);
    assert(row_views(v@) =~= seq![span_views(row@)]);
    v
}

/// Adds rows to an item.
fn push_rows(rows: &mut Vec<Vec<Span>>, more: &mut Vec<Vec<Span>>)
    ensures
        row_views(final(rows)@) == row_views(old(rows)@) + row_views(old(more)@),
{
    let ghost a = row_views(rows@);
    let ghost b = row_views(more@);
    rows.append(more);
    assert(row_views(rows@) =~= a + b);
}

fn annotation_lines_text(content: &str) -> (v: Vec<String>)
    ensures
        texts(v@) == note_lines(content@),
{
    if content.is_empty() {
        let v: Vec<String> = vec![String::new()];
        assert(v@[0]@ =~= Seq::empty());
        assert(texts(v@) =~= seq![Seq::<char>::empty()]);
        v
    } else {
        lines(content)
    }
}

/// The rows of an annotation, if every character has room.
pub fn rows_of_annotation(a: &Annotation, orphaned: bool, side_by_side: bool, width: usize, p: &Palette) -> (r:
    Option<Vec<Vec<Span>>>)
    ensures
        r is Some <==> note_fits(a@, orphaned, side_by_side, width as int, *p),
        r matches Some(v) ==> row_views(v@) == note_rows(
            a@,
            orphaned,
            side_by_side,
            width as int,
            *p,
            note_lines(a@.content).len() as int,
        ),
{
    let style = style_of_annotation(a, orphaned, p);
    let all = annotation_lines_text(a.content.as_str());
    let ghost nl = note_lines(a@.content);
    assert(nl.len() == all@.len());
    let mut rows: Vec<Vec<Span>> = Vec::new();
    let mut i: usize = 0;
    assert(row_views(rows@) =~= note_rows(a@, orphaned, side_by_side, width as int, *p, 0));
    while i < all.len()
        invariant
            i <= all@.len(),
            nl == texts(all@),
            nl == note_lines(a@.content),
            style == annotation_style(a@.annotation_type, a@.resolved_at is Some, orphaned, *p),
            row_views(rows@) == note_rows(
                a@,
                orphaned,
                side_by_side,
                width as int,
                *p,
                i as int,
            ),
            forall|k: int|
                0 <= k < i ==> ({
                    let (prefix, text) = #[trigger] note_line(a@, orphaned, side_by_side, *p, k);
                    all_fit(seq![text], room_beside(seq![prefix], width as int))
                }),
        decreases all@.len() - i,
    {
        let label = if i == 0 {
            annotation_label_text(
                a.annotation_type,
                a.resolved_at.is_some(),
                orphaned,
                side_by_side,
            )
        } else if side_by_side {
            "      ".to_owned()
        } else {
            "       ".to_owned()
        };
        assert(nl[i as int] == all@[i as int]@);
        let prefix = row_of(Span::new(label, style));
        let text = row_of(Span::new(all[i].clone(), style));
        let ghost nline = note_line(a@, orphaned, side_by_side, *p, i as int);
        assert(span_views(prefix@) == seq![nline.0]);
        assert(span_views(text@) == seq![nline.1]);
        match wrap_spans_with_prefix(&prefix, &text, width, style) {
            Some(wrapped) => {
                let mut wrapped = wrapped;
                push_rows(&mut rows, &mut wrapped);
            },
            None => {
                return None;
            },
        }
        i = i + 1;
    }
    Some(rows)
}

/// The context line of a hunk, in a box.
pub fn rows_of_context(
    text: &str,
    line_no: u32,
    highlights: &[HighlightRange],
    width: usize,
    p: &Palette,
) -> (v: Vec<Vec<Span>>)
    ensures
        row_views(v@) == context_rows(text@, line_no, highlights@, width as int, *p),
{
    let style = ink(p.hunk_ctx_fg).bg(p.hunk_ctx_bg);
    let none: Vec<InlineRange> = Vec::new();
    assert(none@ =~= Seq::empty());
    let content = build_highlighted_spans(
        text,
        highlights,
        &none,
        &LineStyle {
            base: style,
            is_current: false,
            current_line_bg: p.hunk_ctx_bg,
            inline_bg: None,
        },
    );
    let number = row_of(Span::new(padded_decimal(line_no as u64, 4), style.bold()));
    build_context_box(&number, &content, width, style)
}

/// The header of a hunk.
pub fn row_of_hunk(line_no: u32, additions: usize, deletions: usize, p: &Palette) -> (v: Vec<Span>)
    ensures
        span_views(v@) == hunk_row(line_no, additions as nat, deletions as nat, *p),
{
    let style = ink(p.hunk_fg).bg(p.hunk_bg);
    let mut stats = " +".to_owned();
    stats.push_str(decimal(additions as u64).as_str());
    stats.push_str(" -");
    stats.push_str(decimal(deletions as u64).as_str());
    stats.push_str(" ");
    let mut at = "starting at line ".to_owned();
    at.push_str(decimal(line_no as u64).as_str());
    at.push_str(" ");
    let mut v: Vec<Span> = Vec::new();
    v.push(Span::new(stats, style.bold()));
    v.push(Span::new(at, style));
    assert(span_views(v@) =~= hunk_row(line_no, additions as nat, deletions as nat, *p));
    v
}

/// The end of a hunk.
pub fn row_of_end(width: usize, p: &Palette) -> (v: Vec<Span>)
    ensures
        span_views(v@) == end_row(width as int, *p),
{
    let mut text = "╰".to_owned();
    text.push_str(repeat_char('─', width).as_str());
    row_of(Span::new(text, ink(p.hunk_border)))
}

impl App {
    /// How many lines a file adds and deletes.
    pub fn file_stats(&self, file_idx: usize) -> (r: (u128, u128))
        ensures
            ({
                let hunks = if file_idx < self@.files.len() {
                    self@.files[file_idx as int].hunks
                } else {
                    Seq::empty()
                };
                &&& r.0 == hunks_count(hunks, LineKind::Addition)
                &&& r.1 == hunks_count(hunks, LineKind::Deletion)
            }),
    {
        reveal(App::model);
        assert(self@.files.len() == self.files@.len());
        if file_idx < self.files.len() {
            let file = &self.files[file_idx];
            assert(self@.files[file_idx as int] == file@);
            (
                count_in_hunks(&file.hunks, LineKind::Addition),
                count_in_hunks(&file.hunks, LineKind::Deletion),
            )
        } else {
            (0, 0)
        }
    }

    /// Whether the cursor is on a line.
    pub fn cursor_at(&self, idx: usize) -> (r: bool)
        ensures
            r == (self@.screen.cursor == idx),
    {
        reveal(App::model);
        self.screen.current_line_idx == idx
    }

    fn is_collapsed(&self, path: &str) -> (r: bool)
        ensures
            r == self@.screen.collapsed.contains(path@),
    {
        reveal(App::model);
        self.screen.collapsed_files.contains(path)
    }

    /// Whether a line is selected.
    pub fn is_selected(&self, idx: usize) -> (r: bool)
        ensures
            r == self@.selected_at(idx as int),
    {
        reveal(App::model);
        match self.screen.selection_range() {
            Some((a, b)) => a <= idx && idx <= b,
            None => false,
        }
    }

    fn marker_of(&self, line: &DiffLine, path: &str) -> (r: char)
        ensures
            r == (match marker_of(
                self@.annotations,
                path@,
                annotated_side(line@),
                annotated_line_no(line@),
            ) {
                Some(c) => c,
                None => ' ',
            }),
    {
        reveal(App::model);
        let no = line_number_of(line);
        let side = if line.new_line_no.is_some() {
            Side::New
        } else {
            Side::Old
        };
        match annotation_marker_for_line(&self.all_annotations, path, side, no) {
            Some(c) => c,
            None => ' ',
        }
    }

    /// The mark of annotations beside a line.
    pub fn span_of_marker(
        &self,
        line: &DiffLine,
        path: &str,
        current: bool,
        selected: bool,
        p: &Palette,
    ) -> (r: Span)
        ensures
            r@ == marker_span(self@, line@, path@, current, selected, *p),
    {
        let mut text = String::new();
        text.push(self.marker_of(line, path));
        let r = Span::new(text, lift(ink(p.annotation_marker), current, selected, p));
        assert(r@.text =~= marker_span(self@, line@, path@, current, selected, *p).text);
        r
    }

    /// The header of a file in the display.
    pub fn row_of_header(&self, idx: usize, path: &str, file_idx: usize, side_by_side: bool, p: &Palette) -> (v:
        Vec<Span>)
        ensures
            span_views(v@) == header_row(
                self@,
                idx as int,
                path@,
                file_idx as int,
                side_by_side,
                *p,
            ),
    {
        let (adds, dels) = self.file_stats(file_idx);
        let (fg, bg) = if self.is_current_search_match(idx) {
            (p.header_match_fg, p.header_match_bg)
        } else if self.is_search_match(idx) {
            (p.header_dim_fg, p.header_dim_bg)
        } else {
            (p.header_fg, p.header_bg)
        };
        let mut style = ink(fg).bg(bg).bold();
        if self.cursor_at(idx) {
            style = style.bg(p.header_focus_bg).underline();
        }
        let mut name = " Δ ".to_owned();
        name.push_str(path);
        name.push_str(
            if self.is_collapsed(path) {
                " ▶"
            } else {
                ""
            },
        );
        name.push_str(
            if side_by_side {
                " "
            } else {
                "  "
            },
        );
        let mut added = "+".to_owned();
        added.push_str(wide_decimal(adds).as_str());
        added.push_str(" ");
        let mut deleted = "-".to_owned();
        deleted.push_str(wide_decimal(dels).as_str());
        deleted.push_str(" ");
        let mut v: Vec<Span> = Vec::new();
        v.push(Span::new(name, style));
        v.push(Span::new(added, ink(p.added_fg).bg(bg)));
        v.push(Span::new(deleted, ink(p.deleted_fg).bg(bg)));
        assert(span_views(v@) =~= header_row(
            self@,
            idx as int,
            path@,
            file_idx as int,
            side_by_side,
            *p,
        ));
        v
    }

    fn spans_of_unified_prefix(
        &self,
        line: &DiffLine,
        path: &str,
        current: bool,
        selected: bool,
        p: &Palette,
    ) -> (v: Vec<Span>)
        ensures
            span_views(v@) == unified_prefix(self@, line@, path@, current, selected, *p),
    {
        let mut v: Vec<Span> = Vec::new();
        v.push(self.span_of_marker(line, path, current, selected, p));
        v.push(
            Span::new(
                padded_decimal(line_number_of(line) as u64, 4),
                style_of_number(line.kind, current, selected, p),
            ),
        );
        v.push(Span::of(" ", Style::plain()));
        v.push(
            match line.kind {
                LineKind::Addition => Span::of("+ ", ink(p.added_fg).bg(p.added_bg)),
                LineKind::Deletion => Span::of("- ", ink(p.deleted_fg).bg(p.deleted_bg)),
                LineKind::Context => Span::of("  ", ink(p.context_fg)),
            },
        );
        assert(span_views(v@) =~= unified_prefix(self@, line@, path@, current, selected, *p));
        v
    }

    /// A line of the display as an item of the list, if every character has
    /// room.
    fn render_unified_item(&self, line: &DisplayLine, idx: usize, width: usize, p: &Palette) -> (r:
        Option<Vec<Vec<Span>>>)
        ensures
            r is Some <==> self@.unified_fits(line@, idx as int, width as int, *p),
            r matches Some(v) ==> row_views(v@) == self@.unified_item(
                line@,
                idx as int,
                width as int,
                *p,
            ),
    {
        match line {
            DisplayLine::Spacer => {
                let empty: Vec<Span> = Vec::new();
                assert(span_views(empty@) =~= Seq::empty());
                Some(item_of(empty))
            },
            DisplayLine::FileHeader { path, file_idx } => Some(
                item_of(self.row_of_header(idx, path.as_str(), *file_idx, false, p)),
            ),
            DisplayLine::HunkContext { text, line_no, highlights } => Some(
                rows_of_context(text.as_str(), *line_no, highlights, width, p),
            ),
            DisplayLine::HunkHeader { line_no, additions, deletions, .. } => Some(
                item_of(row_of_hunk(*line_no, *additions, *deletions, p)),
            ),
            DisplayLine::HunkEnd { .. } => Some(item_of(row_of_end(30, p))),
            DisplayLine::Diff { line, file_path, .. } => {
                let current = self.cursor_at(idx);
                let selected = self.is_selected(idx);
                let prefix = self.spans_of_unified_prefix(
                    line,
                    file_path.as_str(),
                    current,
                    selected,
                    p,
                );
                let content = spans_of_content(line, current, selected, p);
                let style = style_of_content(line.kind, current, selected, p);
                wrap_spans_with_prefix(&prefix, &content, width, style)
            },
            DisplayLine::Annotation { annotation, orphaned, .. } => rows_of_annotation(
                annotation,
                *orphaned,
                false,
                width,
                p,
            ),
        }
    }

    /// The part of the display that may be in view.
    pub fn view_span(&self, height: usize) -> (r: (usize, usize))
        ensures
            r.0 == self@.screen.scroll,
            r.1 == self@.view_end(height as int),
            r.1 <= self@.screen.lines.len(),
    {
        reveal(App::model);
        let n = self.screen.display_lines.len();
        let end = capped_sum(self.screen.scroll_offset, height);
        (
            self.screen.scroll_offset,
            if end <= n {
                end
            } else {
                n
            },
        )
    }

    /// Notes how wide the text of a line can be.
    pub fn set_content_width(&mut self, width: usize)
        requires
            old(self)@.wf(),
        ensures
            final(self)@ == old(self)@.on(
                ScreenV { content_width: width as int, ..old(self)@.screen },
            ),
            final(self)@.wf(),
    {
        reveal(App::model);
        let ghost s0 = self@;
        self.screen.content_width = width;
        assert(self@ == s0.on(self@.screen));
    }

    /// The items of the list, one below the other, if every character has room.
    fn unified_items(&self, width: usize, height: usize, p: &Palette) -> (r: Option<
        Vec<Vec<Vec<Span>>>,
    >)
        ensures
            r is Some <==> self@.unified_list_fits(
                self@.screen.lines,
                width as int,
                height as int,
                *p,
            ),
            r matches Some(v) ==> item_views(v@) == self@.unified_list(
                self@.screen.lines,
                width as int,
                height as int,
                *p,
            ),
    {
        let ghost lines = self@.screen.lines;
        let (from, end) = self.view_span(height);
        let mut v: Vec<Vec<Vec<Span>>> = Vec::new();
        let mut i = from;
        while i < end
            invariant
                from <= i,
                i <= end || i == from,
                from == self@.screen.scroll,
                end == self@.view_end(height as int),
                end <= lines.len(),
                lines == self@.screen.lines,
                v@.len() == i - from,
                forall|k: int|
                    from <= k < i ==> self@.unified_fits(#[trigger] lines[k], k, width as int, *p),
                forall|k: int|
                    0 <= k < v@.len() ==> row_views((#[trigger] v@[k])@) == self@.unified_item(
                        lines[from + k],
                        from + k,
                        width as int,
                        *p,
                    ),
            decreases end - i,
        {
            match self.render_unified_item(self.line_at(i), i, width, p) {
                Some(item) => v.push(item),
                None => {
                    return None;
                },
            }
            i = i + 1;
        }
        assert(item_views(v@) =~= self@.unified_list(lines, width as int, height as int, *p));
        Some(v)
    }

    /// The diff as a list of items, one below the other, if every character has
    /// room. Notes how wide the text of a line can be.
    pub fn render_diff_unified(&mut self, width: usize, height: usize, p: &Palette) -> (r: Option<
        Vec<Vec<Vec<Span>>>,
    >)
        requires
            old(self)@.wf(),
        ensures
            final(self)@ == old(self)@.on(
                ScreenV { content_width: width as int, ..old(self)@.screen },
            ),
            final(self)@.wf(),
            r is Some <==> final(self)@.unified_list_fits(
                old(self)@.screen.lines,
                width as int,
                height as int,
                *p,
            ),
            r matches Some(v) ==> item_views(v@) == final(self)@.unified_list(
                old(self)@.screen.lines,
                width as int,
                height as int,
                *p,
            ),
    {
        self.set_content_width(width);
        self.unified_items(width, height, p)
    }
}

/// The number that a line is shown with.
fn line_number_of(line: &DiffLine) -> (r: u32)
    ensures
        r == annotated_line_no(line@),
{
    match line.new_line_no {
        Some(n) => n,
        None => match line.old_line_no {
            Some(n) => n,
            None => 0,
        },
    }
}

/// One below the other, every line of a file in view is shown with its text: behind
/// a mark, its number in four columns (the new one, or the old one of a line that
/// has no new one), a blank and its sign.
pub proof fn law_unified_shows_text(
    app: AppV,
    lines: Seq<DisplayLineV>,
    width: int,
    height: int,
    p: Palette,
    k: int,
)
    requires
        app.unified_list_fits(lines, width, height, p),
        0 <= k < app.unified_list(lines, width, height, p).len(),
        lines[app.screen.scroll + k] matches DisplayLineV::Diff { line, .. }
            && crate::spans::cuts_between(line.content, line.highlights, line.inline_ranges) && (
        line.new_line_no is Some || line.old_line_no is Some),
    ensures
        ({
            let l = lines[app.screen.scroll + k]->Diff_line;
            let rows = app.unified_list(lines, width, height, p)[k];
            &&& rows.len() > 0
            &&& rows[0].len() >= 4
            &&& rows[0][0].text.len() == 1
            &&& rows[0][1].text == padded_dec(
                match l.new_line_no {
                    Some(n) => n as nat,
                    None => l.old_line_no->0 as nat,
                },
                4,
            )
            &&& rows[0][2].text == " "@
            &&& rows[0][3].text == (match l.kind {
                LineKind::Addition => "+ "@,
                LineKind::Deletion => "- "@,
                LineKind::Context => "  "@,
            })
            &&& crate::spans::unprefixed(rows, 4) == l.content
        }),
{
    let i = app.screen.scroll + k;
    let l = lines[i]->Diff_line;
    let path = lines[i]->Diff_file_path;
    assert(app.unified_fits(lines[i], i, width, p));
    let current = i == app.screen.cursor;
    let selected = app.selected_at(i);
    let prefix = unified_prefix(app, l, path, current, selected, p);
    let content = content_spans(l, current, selected, p);
    let style = content_style(l.kind, current, selected, p);
    crate::spans::law_highlighted_text(
        l.content,
        l.highlights,
        l.inline_ranges,
        LineStyle {
            base: style,
            is_current: current,
            current_line_bg: if selected {
                p.selection_bg
            } else {
                p.current_line_bg
            },
            inline_bg: changed_bg(l.kind, p),
        },
    );
    crate::spans::law_wrapped_beside_text(prefix, content, width, style);
    let rows = app.unified_list(lines, width, height, p)[k];
    assert(rows == wrapped_beside(prefix, content, width, style));
    assert(rows[0].take(4) == prefix);
    assert(rows[0][0] == rows[0].take(4)[0]);
    assert(rows[0][1] == rows[0].take(4)[1]);
    assert(rows[0][2] == rows[0].take(4)[2]);
    assert(rows[0][3] == rows[0].take(4)[3]);
}

/// The mark in front of a line tells of annotations: a dot where one begins, a bar
/// where one goes on, a blank where there is none.
pub proof fn law_marker(app: AppV, line: DiffLineV, path: Seq<char>, current: bool, selected: bool, p: Palette)
    ensures
        ({
            let text = marker_span(app, line, path, current, selected, p).text;
            let no = annotated_line_no(line);
            let here = |a: AnnotationV|
                a.file_path == path && (a.side == Side::New) == (line.new_line_no is Some)
                    && a.start_line <= no && no <= (match a.end_line {
                    Some(end) => end,
                    None => a.start_line,
                });
            &&& text == seq!['●'] <==> exists|k: int|
                0 <= k < app.annotations.len() && here(#[trigger] app.annotations[k])
                    && app.annotations[k].start_line == no
            &&& text == seq![' '] <==> forall|k: int|
                0 <= k < app.annotations.len() ==> !here(#[trigger] app.annotations[k])
            &&& text == seq!['●'] || text == seq!['│'] || text == seq![' ']
        }),
{
    let text = marker_span(app, line, path, current, selected, p).text;
    let no = annotated_line_no(line);
    let side = annotated_side(line);
    let list = app.annotations;
    let here = |a: AnnotationV|
        a.file_path == path && (a.side == Side::New) == (line.new_line_no is Some) && a.start_line
            <= no && no <= (match a.end_line {
            Some(end) => end,
            None => a.start_line,
        });
    let begins = crate::display::marks(list, path, side, no, true);
    let goes_on = crate::display::marks(list, path, side, no, false);
    assert(text.len() == 1);
    assert(seq!['●'][0] == '●');
    assert(seq!['│'][0] == '│');
    assert(seq![' '][0] == ' ');
    assert forall|k: int| 0 <= k < list.len() implies here(#[trigger] list[k]) == (
    list[k].file_path == path && list[k].side == side && list[k].covers(no)) by {}
    if begins {
        let k = choose|k: int|
            0 <= k < list.len() && (#[trigger] list[k]).file_path == path && list[k].side == side
                && list[k].covers(no) && (list[k].start_line == no) == true;
        assert(here(list[k]));
        assert(text =~= seq!['●']);
    } else if goes_on {
        let k = choose|k: int|
            0 <= k < list.len() && (#[trigger] list[k]).file_path == path && list[k].side == side
                && list[k].covers(no) && (list[k].start_line == no) == false;
        assert(here(list[k]));
        assert(text =~= seq!['│']);
        assert(text[0] != ' ');
        assert(text[0] != '●');
    } else {
        assert(text =~= seq![' ']);
        assert(text[0] != '●');
        assert forall|k: int| 0 <= k < list.len() implies !here(#[trigger] list[k]) by {
            if here(list[k]) {
                assert(list[k].file_path == path);
                if list[k].start_line == no {
                    assert(begins);
                } else {
                    assert(goes_on);
                }
            }
        }
    }
}

/// The lines of a kind are counted hunk by hunk: one more hunk adds those of its
/// lines that are of the kind.
pub proof fn law_hunks_count(hunks: Seq<DiffHunkV>, hunk: DiffHunkV, kind: LineKind)
    ensures
        hunks_count(Seq::empty(), kind) == 0,
        hunks_count(hunks.push(hunk), kind) + crate::diff::texts_without(hunk.lines, kind).len()
            == hunks_count(hunks, kind) + hunk.lines.len(),
{
    assert(hunks.push(hunk).drop_last() =~= hunks);
    lemma_counted(hunk.lines, kind);
}

proof fn lemma_counted(lines: Seq<DiffLineV>, kind: LineKind)
    ensures
        count_kind(lines, kind) + crate::diff::texts_without(lines, kind).len() == lines.len(),
    decreases lines.len(),
{
    if lines.len() > 0 {
        lemma_counted(lines.drop_last(), kind);
    }
}

/// The header of a file tells its path, and behind a plus and a minus how many
/// lines its hunks add and delete.
pub proof fn law_header_tells(
    app: AppV,
    i: int,
    path: Seq<char>,
    f: int,
    side_by_side: bool,
    p: Palette,
) -> (r: (Seq<char>, Seq<char>))
    requires
        0 <= f < app.files.len(),
    ensures
        ({
            let row = header_row(app, i, path, f, side_by_side, p);
            let (added, deleted) = r;
            &&& row.len() == 3
            &&& row[0].text == " Δ "@ + path + (if app.screen.collapsed.contains(path) {
                " ▶"@
            } else {
                ""@
            }) + (if side_by_side {
                " "@
            } else {
                "  "@
            })
            &&& row[1].text == "+"@ + added + " "@
            &&& row[2].text == "-"@ + deleted + " "@
            &&& crate::number::digits_value(added) == Some(
                hunks_count(app.files[f].hunks, LineKind::Addition),
            )
            &&& crate::number::digits_value(deleted) == Some(
                hunks_count(app.files[f].hunks, LineKind::Deletion),
            )
        }),
{
    let a = hunks_count(app.files[f].hunks, LineKind::Addition);
    let d = hunks_count(app.files[f].hunks, LineKind::Deletion);
    crate::number::law_digits(a);
    crate::number::law_digits(d);
    (dec(a), dec(d))
}

/// The header of a hunk tells how many lines it adds and deletes, and the line where
/// it begins.
pub proof fn law_hunk_row_tells(line_no: u32, additions: nat, deletions: nat, p: Palette) -> (r: (
    Seq<char>,
    Seq<char>,
    Seq<char>,
))
    ensures
        ({
            let row = hunk_row(line_no, additions, deletions, p);
            let (a, d, n) = r;
            &&& row.len() == 2
            &&& row[0].text == " +"@ + a + " -"@ + d + " "@
            &&& row[1].text == "starting at line "@ + n + " "@
            &&& crate::number::digits_value(a) == Some(additions)
            &&& crate::number::digits_value(d) == Some(deletions)
            &&& crate::number::u32_value(n) == Some(line_no)
        }),
{
    crate::number::law_digits(additions);
    crate::number::law_digits(deletions);
    crate::number::law_number_round_trip(0, line_no);
    (dec(additions), dec(deletions), dec(line_no as nat))
}

proof fn lemma_note_rows_front(
    a: AnnotationV,
    orphaned: bool,
    side_by_side: bool,
    width: int,
    p: Palette,
    n: int,
)
    requires
        n >= 1,
        note_fits(a, orphaned, side_by_side, width, p),
        note_lines(a.content).len() >= 1,
    ensures
        ({
            let (prefix, text) = note_line(a, orphaned, side_by_side, p, 0);
            let first = wrapped_beside(seq![prefix], seq![text], width, prefix.style);
            let rows = note_rows(a, orphaned, side_by_side, width, p, n);
            &&& first.len() > 0
            &&& rows.len() >= first.len()
            &&& forall|i: int| 0 <= i < first.len() ==> rows[i] == #[trigger] first[i]
        }),
    decreases n,
{
    let (prefix, text) = note_line(a, orphaned, side_by_side, p, 0);
    crate::spans::law_wrapped_beside_text(seq![prefix], seq![text], width, prefix.style);
    if n == 1 {
        assert(note_rows(a, orphaned, side_by_side, width, p, 0) =~= Seq::<Seq<SpanV>>::empty());
        let first = wrapped_beside(seq![prefix], seq![text], width, prefix.style);
        assert(note_rows(a, orphaned, side_by_side, width, p, 1) =~= first);
    } else {
        lemma_note_rows_front(a, orphaned, side_by_side, width, p, n - 1);
    }
}

/// An annotation is shown with its text: of a text of one line, the rows behind their
/// label hold that line, and the label tells whether the annotation is resolved, or
/// else orphaned, or else of which type it is.
pub proof fn law_annotation_rows(a: AnnotationV, orphaned: bool, side_by_side: bool, width: int, p: Palette)
    requires
        note_fits(a, orphaned, side_by_side, width, p),
        a.content.len() > 0,
        crate::text::one_line(a.content),
        a.content.last() != '\r',
    ensures
        ({
            let rows = note_rows(
                a,
                orphaned,
                side_by_side,
                width,
                p,
                note_lines(a.content).len() as int,
            );
            &&& rows.len() > 0
            &&& rows[0].len() > 0
            &&& rows[0][0].text == (if side_by_side {
                "   "@
            } else {
                "    "@
            }) + (if a.resolved_at is Some {
                "✓ RESOLVED "@
            } else if orphaned {
                "⚠ ORPHANED "@
            } else if a.annotation_type == AnnotationType::Todo {
                "📌 "@
            } else {
                "💬 "@
            })
            &&& crate::spans::unprefixed(rows, 1) == a.content
        }),
{
    let parts = seq![a.content];
    assert(crate::text::joined(parts, seq!['\n']) == a.content);
    crate::text::law_split_of_join(parts);
    assert(note_lines(a.content) =~= seq![a.content]);
    let (prefix, text) = note_line(a, orphaned, side_by_side, p, 0);
    let first = wrapped_beside(seq![prefix], seq![text], width, prefix.style);
    crate::spans::law_wrapped_beside_text(seq![prefix], seq![text], width, prefix.style);
    lemma_note_rows_front(a, orphaned, side_by_side, width, p, 1);
    assert(note_rows(a, orphaned, side_by_side, width, p, 0) =~= Seq::<Seq<SpanV>>::empty());
    assert(note_rows(a, orphaned, side_by_side, width, p, 1) =~= first);
    assert(first[0].take(1)[0] == first[0][0]);
    let one = seq![text];
    assert(one.drop_last() =~= Seq::<SpanV>::empty());
    assert(crate::style::spans_text(one.drop_last()) =~= Seq::<char>::empty());
    assert(crate::style::spans_text(one) =~= a.content);
}

/// A line that does not stand out is drawn on the background of its kind: additions
/// and deletions on theirs, other lines on none. A selected line is drawn on that of
/// selections, and what stands in front of the current line on that of the current
/// line.
pub proof fn law_line_colors(app: AppV, line: DiffLineV, path: Seq<char>, current: bool, selected: bool, p: Palette)
    ensures
        !(selected && !current) ==> content_style(line.kind, current, selected, p).bg == (
        match line.kind {
            LineKind::Addition => Some(p.added_bg),
            LineKind::Deletion => Some(p.deleted_bg),
            LineKind::Context => None,
        }),
        selected && !current ==> content_style(line.kind, current, selected, p).bg == Some(
            p.selection_bg,
        ),
        changed_bg(line.kind, p) == (match line.kind {
            LineKind::Addition => Some(p.intraline_added_bg),
            LineKind::Deletion => Some(p.intraline_deleted_bg),
            LineKind::Context => None,
        }),
        ({
            let prefix = unified_prefix(app, line, path, current, selected, p);
            &&& prefix[1].style.fg == Some(
                match line.kind {
                    LineKind::Addition => p.added_fg,
                    LineKind::Deletion => p.deleted_fg,
                    LineKind::Context => p.line_num,
                },
            )
            &&& current ==> prefix[0].style.bg == Some(p.current_line_bg) && prefix[1].style.bg
                == Some(p.current_line_bg)
            &&& !current && selected ==> prefix[0].style.bg == Some(p.selection_bg)
                && prefix[1].style.bg == Some(p.selection_bg)
            &&& !current && !selected ==> prefix[0].style.bg is None && prefix[1].style.bg is None
            &&& line.kind == LineKind::Addition ==> prefix[3].style.fg == Some(p.added_fg)
                && prefix[3].style.bg == Some(p.added_bg)
            &&& line.kind == LineKind::Deletion ==> prefix[3].style.fg == Some(p.deleted_fg)
                && prefix[3].style.bg == Some(p.deleted_bg)
        }),
{
}

/// An annotation that is resolved is drawn in the colours of what is resolved,
/// whatever else it is; one that is not, on the background of its type, and in the
/// colour of deletions if it is orphaned.
pub proof fn law_annotation_colors(t: AnnotationType, orphaned: bool, p: Palette)
    ensures
        annotation_style(t, true, orphaned, p).fg == Some(p.resolved_fg),
        annotation_style(t, true, orphaned, p).bg == Some(p.resolved_bg),
        annotation_style(t, false, orphaned, p).bg == Some(
            if t == AnnotationType::Todo {
                p.todo_bg
            } else {
                p.annotation_bg
            },
        ),
        annotation_style(t, false, true, p).fg == Some(p.deleted_fg),
        annotation_style(t, false, false, p).fg == Some(
            if t == AnnotationType::Todo {
                p.todo_fg
            } else {
                p.annotation_fg
            },
        ),
{
}

/// The lines that are selected are those from where the selection began to the
/// cursor, whichever comes first.
pub proof fn law_selected_lines(s: AppV, start: int, i: int)
    requires
        s.screen.selection_start == Some(start),
    ensures
        s.selected_at(i) <==> s.screen.selection_active && ((start <= i && i <= s.screen.cursor) || (
        s.screen.cursor <= i && i <= start)),
{
}

} // verus!
