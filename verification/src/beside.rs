//! The diff as styled text, the old side beside the new one.
use vstd::prelude::*;

use crate::diff::{texts_without, DiffLine, DiffLineV, LineKind};
use crate::display::{DisplayLine, DisplayLineV};
use crate::number::{padded_dec, padded_decimal};
use crate::palette::Palette;
use crate::render::{
    changed_bg, content_spans, content_style, context_rows, end_row, header_row, hunk_row, ink, inked,
    item_of, item_views, lifted, marker_span, note_fits, note_lines, note_rows, number_color,
    row_of_end, row_of_hunk, rows_of_annotation, rows_of_context, spans_of_content,
    style_of_content, style_of_number,
};
use crate::screen::{greater, ScreenV};
use crate::spans::{
    all_fit, behind, cuts_between, law_highlighted_text, law_wrapped_beside_text, room_beside,
    rows_text, unprefixed, wrap_spans_with_prefix, wrapped_beside, LineStyle,
};
use crate::state::{App, AppV};
use crate::storage::Side;
use crate::style::{plain_style, row_views, span, span_views, spans_text, Span, SpanV, Style};

verus! {

/// Rows with empty ones below them to make up a height.
pub open spec fn filled_up(rows: Seq<Seq<SpanV>>, height: int) -> Seq<Seq<SpanV>> {
    if rows.len() < height {
        rows + Seq::new((height - rows.len()) as nat, |i: int| Seq::<SpanV>::empty())
    } else {
        rows
    }
}

/// The height of rows side by side, at least one.
pub open spec fn pair_height(left: Seq<Seq<SpanV>>, right: Seq<Seq<SpanV>>) -> int {
    greater(greater(left.len() as int, right.len() as int), 1)
}

/// A line number, or blanks where there is none.
pub open spec fn number_text(no: Option<u32>) -> Seq<char> {
    match no {
        Some(n) => padded_dec(n as nat, 4),
        None => "    "@,
    }
}

/// What stands in front of a line on one side.
pub open spec fn side_prefix(
    app: AppV,
    line: DiffLineV,
    path: Seq<char>,
    no: Option<u32>,
    current: bool,
    selected: bool,
    p: Palette,
) -> Seq<SpanV> {
    seq![
        marker_span(app, line, path, current, selected, p),
        span(
            number_text(no),
            lifted(inked(number_color(line.kind, p)), current, selected, p),
        ),
        match line.kind {
            LineKind::Addition => span("+ "@, inked(p.added_fg).with_bg(p.added_bg)),
            LineKind::Deletion => span("- "@, inked(p.deleted_fg).with_bg(p.deleted_bg)),
            LineKind::Context => span(
                "  "@,
                content_style(LineKind::Context, current, selected, p),
            ),
        },
    ]
}

/// A line on one side.
pub open spec fn side_rows(
    app: AppV,
    line: DiffLineV,
    path: Seq<char>,
    no: Option<u32>,
    i: int,
    width: int,
    p: Palette,
) -> Seq<Seq<SpanV>> {
    let current = i == app.screen.cursor;
    let selected = app.selected_at(i);
    wrapped_beside(
        side_prefix(app, line, path, no, current, selected, p),
        content_spans(line, current, selected, p),
        width,
        content_style(line.kind, current, selected, p),
    )
}

/// Whether every character of a line on one side has room.
pub open spec fn side_fits(
    app: AppV,
    line: DiffLineV,
    path: Seq<char>,
    no: Option<u32>,
    i: int,
    width: int,
    p: Palette,
) -> bool {
    let current = i == app.screen.cursor;
    let selected = app.selected_at(i);
    all_fit(
        content_spans(line, current, selected, p),
        room_beside(side_prefix(app, line, path, no, current, selected, p), width),
    )
}

impl AppV {
    /// The rows of a line of the display on the left and on the right. Deletions
    /// and annotations of old lines stand on the left, additions and annotations
    /// of new lines on the right, other lines on both sides; headers on the
    /// left.
    pub open spec fn side_item(self, line: DisplayLineV, i: int, width: int, p: Palette) -> (
        Seq<Seq<SpanV>>,
        Seq<Seq<SpanV>>,
    ) {
        let none = Seq::<Seq<SpanV>>::empty();
        match line {
            DisplayLineV::Spacer => (none, none),
            DisplayLineV::FileHeader { path, file_idx } => (
                seq![header_row(self, i, path, file_idx, true, p)],
                none,
            ),
            DisplayLineV::HunkContext { text, line_no, highlights } => (
                context_rows(text, line_no, highlights, width, p),
                none,
            ),
            DisplayLineV::HunkHeader { line_no, additions, deletions, .. } => (
                seq![hunk_row(line_no, additions, deletions, p)],
                none,
            ),
            DisplayLineV::HunkEnd { .. } => (seq![end_row(20, p)], none),
            DisplayLineV::Diff { line: l, file_path, .. } => match l.kind {
                LineKind::Deletion => (
                    side_rows(self, l, file_path, l.old_line_no, i, width, p),
                    none,
                ),
                LineKind::Addition => (
                    none,
                    side_rows(self, l, file_path, l.new_line_no, i, width, p),
                ),
                LineKind::Context => (
                    side_rows(self, l, file_path, l.old_line_no, i, width, p),
                    side_rows(self, l, file_path, l.new_line_no, i, width, p),
                ),
            },
            DisplayLineV::Annotation { annotation, orphaned, .. } => {
                let rows = note_rows(
                    annotation,
                    orphaned,
                    true,
                    width,
                    p,
                    note_lines(annotation.content).len() as int,
                );
                match annotation.side {
                    Side::Old => (rows, none),
                    Side::New => (none, rows),
                }
            },
        }
    }

    /// Whether every character of a line has room, side by side.
    pub open spec fn side_item_fits(self, line: DisplayLineV, i: int, width: int, p: Palette) -> bool {
        match line {
            DisplayLineV::Diff { line: l, file_path, .. } => {
                &&& l.kind != LineKind::Addition ==> side_fits(
                    self,
                    l,
                    file_path,
                    l.old_line_no,
                    i,
                    width,
                    p,
                )
                &&& l.kind != LineKind::Deletion ==> side_fits(
                    self,
                    l,
                    file_path,
                    l.new_line_no,
                    i,
                    width,
                    p,
                )
            },
            DisplayLineV::Annotation { annotation, orphaned, .. } => note_fits(
                annotation,
                orphaned,
                true,
                width,
                p,
            ),
            _ => true,
        }
    }

    /// Item `k` of the list, of equal height on both sides.
    pub open spec fn side_pair(
        self,
        lines: Seq<DisplayLineV>,
        k: int,
        width: int,
        p: Palette,
    ) -> (Seq<Seq<SpanV>>, Seq<Seq<SpanV>>) {
        let i = self.screen.scroll + k;
        let (left, right) = self.side_item(lines[i], i, width, p);
        let height = pair_height(left, right);
        (filled_up(left, height), filled_up(right, height))
    }

    /// How many lines may be in view.
    pub open spec fn view_count(self, height: int) -> nat {
        if self.screen.scroll <= self.view_end(height) {
            (self.view_end(height) - self.screen.scroll) as nat
        } else {
            0
        }
    }

    /// Whether every character of the lines that may be in view has room, side
    /// by side.
    pub open spec fn side_list_fits(
        self,
        lines: Seq<DisplayLineV>,
        width: int,
        height: int,
        p: Palette,
    ) -> bool {
        forall|i: int|
            self.screen.scroll <= i < self.view_end(height) ==> self.side_item_fits(
                #[trigger] lines[i],
                i,
                width,
                p,
            )
    }
}

/// The items of the two sides, and of the divider between them.
#[derive(Debug)]
pub struct Beside {
    pub left: Vec<Vec<Vec<Span>>>,
    pub divider: Vec<Vec<Vec<Span>>>,
    pub right: Vec<Vec<Vec<Span>>>,
}

/// The divider beside an item.
pub open spec fn divider_rows(height: int) -> Seq<Seq<SpanV>> {
    Seq::new(height as nat, |i: int| seq![span("  "@, plain_style())])
}

impl Beside {
    /// Whether these are the items of the lines that may be in view.
    pub open spec fn shows(
        self,
        app: AppV,
        lines: Seq<DisplayLineV>,
        width: int,
        height: int,
        p: Palette,
    ) -> bool {
        let n = app.view_count(height);
        &&& item_views(self.left@) == Seq::new(n, |k: int| app.side_pair(lines, k, width, p).0)
        &&& item_views(self.right@) == Seq::new(n, |k: int| app.side_pair(lines, k, width, p).1)
        &&& item_views(self.divider@) == Seq::new(
            n,
            |k: int| divider_rows(app.side_pair(lines, k, width, p).0.len() as int),
        )
    }
}

fn fill_up(rows: &mut Vec<Vec<Span>>, height: usize)
    ensures
        row_views(final(rows)@) == filled_up(row_views(old(rows)@), height as int),
        final(rows)@.len() == (if old(rows)@.len() < height {
            height as nat
        } else {
            old(rows)@.len()
        }),
{
    let ghost r0 = row_views(rows@);
    assert(r0.len() == rows@.len());
    while rows.len() < height
        invariant
            r0.len() <= rows@.len(),
            rows@.len() <= height || rows@.len() == r0.len(),
            row_views(rows@) == r0 + Seq::new(
                (rows@.len() - r0.len()) as nat,
                |i: int| Seq::<SpanV>::empty(),
            ),
        decreases height - rows@.len(),
    {
        let ghost before = row_views(rows@);
        let empty: Vec<Span> = Vec::new();
        assert(span_views(empty@) =~= Seq::empty());
        rows.push(empty);
        assert(row_views(rows@) =~= before.push(Seq::empty()));
        assert(row_views(rows@) =~= r0 + Seq::new(
            (rows@.len() - r0.len()) as nat,
            |i: int| Seq::<SpanV>::empty(),
        ));
    }
    assert(row_views(rows@) =~= filled_up(r0, height as int));
}

fn divider(height: usize) -> (v: Vec<Vec<Span>>)
    ensures
        row_views(v@) == divider_rows(height as int),
{
    let mut v: Vec<Vec<Span>> = Vec::new();
    let mut i: usize = 0;
    while i < height
        invariant
            i <= height,
            v@.len() == i,
            forall|k: int|
                0 <= k < i ==> span_views((#[trigger] v@[k])@) == seq![span("  "@, plain_style())],
        decreases height - i,
    {
        let mut row: Vec<Span> = Vec::new();
        row.push(Span::of("  ", Style::plain()));
        assert(span_views(row@) =~= seq![span("  "@, plain_style())]);
        v.push(row);
        i = i + 1;
    }
    assert(row_views(v@) =~= divider_rows(height as int));
    v
}

fn text_of_number(no: Option<u32>) -> (s: String)
    ensures
        s@ == number_text(no),
{
    match no {
        Some(n) => padded_decimal(n as u64, 4),
        None => "    ".to_owned(),
    }
}

fn no_rows() -> (v: Vec<Vec<Span>>)
    ensures
        row_views(v@) == Seq::<Seq<SpanV>>::empty(),
{
    let v: Vec<Vec<Span>> = Vec::new();
    assert(row_views(v@) =~= Seq::<Seq<SpanV>>::empty());
    v
}

impl App {
    fn spans_of_side_prefix(
        &self,
        line: &DiffLine,
        path: &str,
        no: Option<u32>,
        current: bool,
        selected: bool,
        p: &Palette,
    ) -> (v: Vec<Span>)
        ensures
            span_views(v@) == side_prefix(self@, line@, path@, no, current, selected, *p),
    {
        let mut v: Vec<Span> = Vec::new();
        v.push(self.span_of_marker(line, path, current, selected, p));
        v.push(
            Span::new(
                text_of_number(no),
                style_of_number(line.kind, current, selected, p),
            ),
        );
        v.push(
            match line.kind {
                LineKind::Addition => Span::of("+ ", ink(p.added_fg).bg(p.added_bg)),
                LineKind::Deletion => Span::of("- ", ink(p.deleted_fg).bg(p.deleted_bg)),
                LineKind::Context => Span::of(
                    "  ",
                    style_of_content(LineKind::Context, current, selected, p),
                ),
            },
        );
        assert(span_views(v@) =~= side_prefix(self@, line@, path@, no, current, selected, *p));
        v
    }

    /// A line on one side, if every character has room.
    fn rows_of_side(
        &self,
        line: &DiffLine,
        path: &str,
        no: Option<u32>,
        idx: usize,
        width: usize,
        p: &Palette,
    ) -> (r: Option<Vec<Vec<Span>>>)
        ensures
            r is Some <==> side_fits(self@, line@, path@, no, idx as int, width as int, *p),
            r matches Some(v) ==> row_views(v@) == side_rows(
                self@,
                line@,
                path@,
                no,
                idx as int,
                width as int,
                *p,
            ),
    {
        let current = self.cursor_at(idx);
        let selected = self.is_selected(idx);
        let prefix = self.spans_of_side_prefix(line, path, no, current, selected, p);
        let content = spans_of_content(line, current, selected, p);
        let style = style_of_content(line.kind, current, selected, p);
        wrap_spans_with_prefix(&prefix, &content, width, style)
    }

    /// The rows of a line on the left and on the right, if every character has
    /// room.
    fn render_side_item(&self, line: &DisplayLine, idx: usize, width: usize, p: &Palette) -> (r:
        Option<(Vec<Vec<Span>>, Vec<Vec<Span>>)>)
        ensures
            r is Some <==> self@.side_item_fits(line@, idx as int, width as int, *p),
            r matches Some((left, right)) ==> (row_views(left@), row_views(right@))
                == self@.side_item(line@, idx as int, width as int, *p),
    {
        match line {
            DisplayLine::Spacer => Some((no_rows(), no_rows())),
            DisplayLine::FileHeader { path, file_idx } => Some(
                (
                    item_of(self.row_of_header(idx, path.as_str(), *file_idx, true, p)),
                    no_rows(),
                ),
            ),
            DisplayLine::HunkContext { text, line_no, highlights } => Some(
                (rows_of_context(text.as_str(), *line_no, highlights, width, p), no_rows()),
            ),
            DisplayLine::HunkHeader { line_no, additions, deletions, .. } => Some(
                (item_of(row_of_hunk(*line_no, *additions, *deletions, p)), no_rows()),
            ),
            DisplayLine::HunkEnd { .. } => Some((item_of(row_of_end(20, p)), no_rows())),
            DisplayLine::Diff { line: l, file_path, .. } => {
                let path = file_path.as_str();
                let left = if l.kind != LineKind::Addition {
                    match self.rows_of_side(l, path, l.old_line_no, idx, width, p) {
                        Some(rows) => rows,
                        None => {
                            return None;
                        },
                    }
                } else {
                    no_rows()
                };
                let right = if l.kind != LineKind::Deletion {
                    match self.rows_of_side(l, path, l.new_line_no, idx, width, p) {
                        Some(rows) => rows,
                        None => {
                            return None;
                        },
                    }
                } else {
                    no_rows()
                };
                Some((left, right))
            },
            DisplayLine::Annotation { annotation, orphaned, .. } => {
                match rows_of_annotation(annotation, *orphaned, true, width, p) {
                    Some(rows) => match annotation.side {
                        Side::Old => Some((rows, no_rows())),
                        Side::New => Some((no_rows(), rows)),
                    },
                    None => None,
                }
            },
        }
    }

    fn side_items(&self, width: usize, height: usize, p: &Palette) -> (r: Option<Beside>)
        ensures
            r is Some <==> self@.side_list_fits(
                self@.screen.lines,
                width as int,
                height as int,
                *p,
            ),
            r matches Some(b) ==> b.shows(
                self@,
                self@.screen.lines,
                width as int,
                height as int,
                *p,
            ),
    {
        let ghost lines = self@.screen.lines;
        let (from, end) = self.view_span(height);
        let mut left_items: Vec<Vec<Vec<Span>>> = Vec::new();
        let mut right_items: Vec<Vec<Vec<Span>>> = Vec::new();
        let mut divider_items: Vec<Vec<Vec<Span>>> = Vec::new();
        let mut i = from;
        while i < end
            invariant
                from <= i,
                i <= end || i == from,
                from == self@.screen.scroll,
                end == self@.view_end(height as int),
                end <= lines.len(),
                lines == self@.screen.lines,
                left_items@.len() == i - from,
                right_items@.len() == i - from,
                divider_items@.len() == i - from,
                forall|k: int|
                    from <= k < i ==> self@.side_item_fits(
                        #[trigger] lines[k],
                        k,
                        width as int,
                        *p,
                    ),
                forall|k: int|
                    0 <= k < i - from ==> row_views((#[trigger] left_items@[k])@)
                        == self@.side_pair(lines, k, width as int, *p).0,
                forall|k: int|
                    0 <= k < i - from ==> row_views((#[trigger] right_items@[k])@)
                        == self@.side_pair(lines, k, width as int, *p).1,
                forall|k: int|
                    0 <= k < i - from ==> row_views((#[trigger] divider_items@[k])@)
                        == divider_rows(
                        self@.side_pair(lines, k, width as int, *p).0.len() as int,
                    ),
            decreases end - i,
        {
            let pair = match self.render_side_item(self.line_at(i), i, width, p) {
                Some(pair) => pair,
                None => {
                    return None;
                },
            };
            let (mut left, mut right) = pair;
            let ghost lv = row_views(left@);
            let ghost rv = row_views(right@);
            assert(lv.len() == left@.len() && rv.len() == right@.len());
            let mut tall: usize = if left.len() >= right.len() {
                left.len()
            } else {
                right.len()
            };
            if tall < 1 {
                tall = 1;
            }
            assert(tall == pair_height(lv, rv));
            fill_up(&mut left, tall);
            fill_up(&mut right, tall);
            proof {
                assert(lines[self@.screen.scroll + (i - from)] == lines[i as int]);
                assert(filled_up(lv, tall as int).len() == tall);
                assert(self@.side_pair(lines, i - from, width as int, *p) == (
                    filled_up(lv, tall as int),
                    filled_up(rv, tall as int),
                ));
            }
            left_items.push(left);
            right_items.push(right);
            divider_items.push(divider(tall));
            i = i + 1;
        }
        let b = Beside { left: left_items, divider: divider_items, right: right_items };
        proof {
            let n = self@.view_count(height as int);
            let w = width as int;
            assert(item_views(b.left@) =~= Seq::new(n, |k: int| self@.side_pair(lines, k, w, *p).0));
            assert(item_views(b.right@) =~= Seq::new(
                n,
                |k: int| self@.side_pair(lines, k, w, *p).1,
            ));
            assert(item_views(b.divider@) =~= Seq::new(
                n,
                |k: int| divider_rows(self@.side_pair(lines, k, w, *p).0.len() as int),
            ));
        }
        Some(b)
    }

    /// The diff as two lists with a divider between them, if every character
    /// has room. Notes how wide the text of a line can be.
    pub fn render_diff_side_by_side(&mut self, width: usize, height: usize, p: &Palette) -> (r:
        Option<Beside>)
        requires
            old(self)@.wf(),
        ensures
            final(self)@ == old(self)@.on(
                ScreenV { content_width: width as int, ..old(self)@.screen },
            ),
            final(self)@.wf(),
            r is Some <==> final(self)@.side_list_fits(
                old(self)@.screen.lines,
                width as int,
                height as int,
                *p,
            ),
            r matches Some(b) ==> b.shows(
                final(self)@,
                old(self)@.screen.lines,
                width as int,
                height as int,
                *p,
            ),
    {
        self.set_content_width(width);
        self.side_items(width, height, p)
    }
}

/// Both sides of every item are of the same height, and never empty.
pub proof fn law_sides_level(app: AppV, lines: Seq<DisplayLineV>, k: int, width: int, p: Palette)
    ensures
        app.side_pair(lines, k, width, p).0.len() == app.side_pair(lines, k, width, p).1.len(),
        app.side_pair(lines, k, width, p).0.len() >= 1,
{
}

/// Whether rows hold no character.
pub open spec fn blank_rows(rows: Seq<Seq<SpanV>>) -> bool {
    forall|i: int| 0 <= i < rows.len() ==> spans_text(#[trigger] rows[i]).len() == 0
}

proof fn lemma_filled_up(rows: Seq<Seq<SpanV>>, height: int, first: int)
    requires
        rows.len() > 0,
        first >= 0,
        height >= rows.len(),
    ensures
        unprefixed(filled_up(rows, height), first) == unprefixed(rows, first),
        filled_up(rows, height)[0] == rows[0],
    decreases height,
{
    if height > rows.len() {
        lemma_filled_up(rows, height - 1, first);
        let less = filled_up(rows, height - 1);
        let more = filled_up(rows, height);
        assert(more =~= less.push(Seq::empty()));
        let skip = |i: int|
            if i == 0 {
                first
            } else {
                1
            };
        let a = Seq::new(less.len(), |i: int| behind(less[i], skip(i)));
        let b = Seq::new(more.len(), |i: int| behind(more[i], skip(i)));
        assert(b.drop_last() =~= a);
        assert(b.last() =~= Seq::<SpanV>::empty());
        assert(rows_text(b) =~= rows_text(a));
        assert(unprefixed(less, first) == rows_text(a)) by {
            assert(a =~= Seq::new(
                less.len(),
                |i: int|
                    behind(
                        less[i],
                        if i == 0 {
                            first
                        } else {
                            1
                        },
                    ),
            ));
        }
        assert(unprefixed(more, first) == rows_text(b)) by {
            assert(b =~= Seq::new(
                more.len(),
                |i: int|
                    behind(
                        more[i],
                        if i == 0 {
                            first
                        } else {
                            1
                        },
                    ),
            ));
        }
    }
}

/// Whether rows show a line of a file: its number in four columns and its sign
/// behind a mark, and its text.
pub open spec fn rows_show(rows: Seq<Seq<SpanV>>, no: Option<u32>, sign: Seq<char>, content: Seq<char>) -> bool {
    &&& rows.len() > 0
    &&& rows[0].len() >= 3
    &&& rows[0][0].text.len() == 1
    &&& rows[0][1].text == (match no {
        Some(n) => padded_dec(n as nat, 4),
        None => "    "@,
    })
    &&& rows[0][2].text == sign
    &&& unprefixed(rows, 3) == content
}

proof fn lemma_side_rows_show(
    app: AppV,
    l: DiffLineV,
    path: Seq<char>,
    no: Option<u32>,
    i: int,
    width: int,
    height: int,
    p: Palette,
)
    requires
        side_fits(app, l, path, no, i, width, p),
        cuts_between(l.content, l.highlights, l.inline_ranges),
        height >= side_rows(app, l, path, no, i, width, p).len(),
    ensures
        rows_show(
            filled_up(side_rows(app, l, path, no, i, width, p), height),
            no,
            match l.kind {
                LineKind::Addition => "+ "@,
                LineKind::Deletion => "- "@,
                LineKind::Context => "  "@,
            },
            l.content,
        ),
{
    let current = i == app.screen.cursor;
    let selected = app.selected_at(i);
    let prefix = side_prefix(app, l, path, no, current, selected, p);
    let content = content_spans(l, current, selected, p);
    let style = content_style(l.kind, current, selected, p);
    law_highlighted_text(
        l.content,
        l.highlights,
        l.inline_ranges,
        LineStyle {
            base: style,
            is_current: current,
            current_line_bg: if selected {
                p.selection_bg
            } else {
                p.current_line_bg
            },
            inline_bg: changed_bg(l.kind, p),
        },
    );
    law_wrapped_beside_text(prefix, content, width, style);
    let rows = side_rows(app, l, path, no, i, width, p);
    lemma_filled_up(rows, height, 3);
    assert(rows[0].take(3) == prefix);
    assert(rows[0][0] == rows[0].take(3)[0]);
    assert(rows[0][1] == rows[0].take(3)[1]);
    assert(rows[0][2] == rows[0].take(3)[2]);
}

/// Side by side, the old text stands on the left and the new text on the right:
/// a line that is no addition is shown on the left, under its old number, with its
/// text, and a line that is no deletion on the right, under its new number; the
/// left of an addition and the right of a deletion hold no character.
pub proof fn law_old_left_new_right(
    b: Beside,
    app: AppV,
    lines: Seq<DisplayLineV>,
    width: int,
    height: int,
    p: Palette,
    k: int,
)
    requires
        b.shows(app, lines, width, height, p),
        app.side_list_fits(lines, width, height, p),
        0 <= k < b.left@.len(),
        lines[app.screen.scroll + k] matches DisplayLineV::Diff { line, .. } && cuts_between(
            line.content,
            line.highlights,
            line.inline_ranges,
        ),
    ensures
        b.left@.len() == b.right@.len(),
        ({
            let l = lines[app.screen.scroll + k]->Diff_line;
            let left = item_views(b.left@)[k];
            let right = item_views(b.right@)[k];
            match l.kind {
                LineKind::Deletion => rows_show(left, l.old_line_no, "- "@, l.content)
                    && blank_rows(right),
                LineKind::Addition => blank_rows(left) && rows_show(
                    right,
                    l.new_line_no,
                    "+ "@,
                    l.content,
                ),
                LineKind::Context => rows_show(left, l.old_line_no, "  "@, l.content) && rows_show(
                    right,
                    l.new_line_no,
                    "  "@,
                    l.content,
                ),
            }
        }),
{
    let i = app.screen.scroll + k;
    assert(item_views(b.left@).len() == b.left@.len());
    assert(item_views(b.right@).len() == b.right@.len());
    assert(item_views(b.left@)[k] == app.side_pair(lines, k, width, p).0);
    assert(item_views(b.right@)[k] == app.side_pair(lines, k, width, p).1);
    assert(app.side_item_fits(lines[i], i, width, p));
    let (left, right) = app.side_item(lines[i], i, width, p);
    let tall = pair_height(left, right);
    if let DisplayLineV::Diff { line, file_path, .. } = lines[i] {
        if line.kind != LineKind::Addition {
            lemma_side_rows_show(app, line, file_path, line.old_line_no, i, width, tall, p);
        }
        if line.kind != LineKind::Deletion {
            lemma_side_rows_show(app, line, file_path, line.new_line_no, i, width, tall, p);
        }
    }
}

/// The texts of the lines that stand on one side, in order: of the lines of files
/// in view, those whose rows on that side are not empty.
pub open spec fn side_texts(items: Seq<Seq<Seq<SpanV>>>, lines: Seq<DisplayLineV>, from: int) -> Seq<
    Seq<char>,
>
    decreases items.len(),
{
    if items.len() == 0 {
        Seq::empty()
    } else {
        let before = side_texts(items.drop_last(), lines, from);
        if lines[from + items.len() - 1] is Diff && !blank_rows(items.last()) {
            before.push(unprefixed(items.last(), 3))
        } else {
            before
        }
    }
}

/// The lines of files in a part of the display.
pub open spec fn diff_lines_of(lines: Seq<DisplayLineV>, from: int, n: int) -> Seq<DiffLineV>
    decreases n,
{
    if n <= 0 {
        Seq::empty()
    } else if lines[from + n - 1] is Diff {
        diff_lines_of(lines, from, n - 1).push(lines[from + n - 1]->Diff_line)
    } else {
        diff_lines_of(lines, from, n - 1)
    }
}

proof fn lemma_shown_not_blank(rows: Seq<Seq<SpanV>>, no: Option<u32>, sign: Seq<char>, content: Seq<char>)
    requires
        rows_show(rows, no, sign, content),
    ensures
        !blank_rows(rows),
{
    lemma_spans_text_first(rows[0]);
    assert(spans_text(rows[0]).len() > 0);
}

proof fn lemma_spans_text_first(spans: Seq<SpanV>)
    requires
        spans.len() > 0,
    ensures
        spans_text(spans).len() >= spans[0].text.len(),
    decreases spans.len(),
{
    if spans.len() > 1 {
        lemma_spans_text_first(spans.drop_last());
    }
}

proof fn lemma_side_texts(
    b: Beside,
    app: AppV,
    lines: Seq<DisplayLineV>,
    width: int,
    height: int,
    p: Palette,
    n: int,
)
    requires
        b.shows(app, lines, width, height, p),
        app.side_list_fits(lines, width, height, p),
        0 <= n <= b.left@.len(),
        forall|k: int|
            0 <= k < b.left@.len() && #[trigger] lines[app.screen.scroll + k] is Diff
                ==> cuts_between(
                lines[app.screen.scroll + k]->Diff_line.content,
                lines[app.screen.scroll + k]->Diff_line.highlights,
                lines[app.screen.scroll + k]->Diff_line.inline_ranges,
            ),
    ensures
        b.left@.len() == b.right@.len(),
        side_texts(item_views(b.left@).take(n), lines, app.screen.scroll) == texts_without(
            diff_lines_of(lines, app.screen.scroll, n),
            LineKind::Addition,
        ),
        side_texts(item_views(b.right@).take(n), lines, app.screen.scroll) == texts_without(
            diff_lines_of(lines, app.screen.scroll, n),
            LineKind::Deletion,
        ),
    decreases n,
{
    let left = item_views(b.left@);
    let right = item_views(b.right@);
    assert(left.len() == right.len());
    if n > 0 {
        let from = app.screen.scroll;
        lemma_side_texts(b, app, lines, width, height, p, n - 1);
        assert(left.take(n).drop_last() =~= left.take(n - 1));
        assert(right.take(n).drop_last() =~= right.take(n - 1));
        assert(left.take(n).last() == left[n - 1]);
        assert(right.take(n).last() == right[n - 1]);
        if lines[from + (n - 1)] is Diff {
            let l = lines[from + (n - 1)]->Diff_line;
            law_old_left_new_right(b, app, lines, width, height, p, n - 1);
            let ls = diff_lines_of(lines, from, n);
            assert(ls.drop_last() =~= diff_lines_of(lines, from, n - 1));
            assert(ls.last() == l);
            let sign = match l.kind {
                LineKind::Addition => "+ "@,
                LineKind::Deletion => "- "@,
                LineKind::Context => "  "@,
            };
            if l.kind != LineKind::Addition {
                lemma_shown_not_blank(left[n - 1], l.old_line_no, sign, l.content);
            }
            if l.kind != LineKind::Deletion {
                lemma_shown_not_blank(right[n - 1], l.new_line_no, sign, l.content);
            }
        }
    }
}

/// The texts on the left, read downwards, are those of the lines in view but for
/// the additions: the old text. Those on the right are those but for the
/// deletions: the new text.
pub proof fn law_sides_read_as_texts(
    b: Beside,
    app: AppV,
    lines: Seq<DisplayLineV>,
    width: int,
    height: int,
    p: Palette,
)
    requires
        b.shows(app, lines, width, height, p),
        app.side_list_fits(lines, width, height, p),
        forall|k: int|
            0 <= k < b.left@.len() && #[trigger] lines[app.screen.scroll + k] is Diff
                ==> cuts_between(
                lines[app.screen.scroll + k]->Diff_line.content,
                lines[app.screen.scroll + k]->Diff_line.highlights,
                lines[app.screen.scroll + k]->Diff_line.inline_ranges,
            ),
    ensures
        side_texts(item_views(b.left@), lines, app.screen.scroll) == texts_without(
            diff_lines_of(lines, app.screen.scroll, b.left@.len() as int),
            LineKind::Addition,
        ),
        side_texts(item_views(b.right@), lines, app.screen.scroll) == texts_without(
            diff_lines_of(lines, app.screen.scroll, b.right@.len() as int),
            LineKind::Deletion,
        ),
{
    let n = b.left@.len() as int;
    lemma_side_texts(b, app, lines, width, height, p, n);
    assert(item_views(b.left@).take(n) =~= item_views(b.left@));
    assert(item_views(b.right@).take(n) =~= item_views(b.right@));
}

} // verus!
