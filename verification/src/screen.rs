//! The screen: the display lines, the cursor on them, the part of them that is
//! in view, and the sidebar.
use vstd::prelude::*;

use crate::diff::LineKind;
use crate::display::{display_views, opt_idx, DisplayLine, DisplayLineV};
use crate::names::NameSet;
use crate::outside::{text_columns, text_width};
use crate::spans::{capped_sum, row_count, rows_for, sum_capped, text_rows, wrapped_line_count};
use crate::storage::AnnotationType;

verus! {

/// The lines kept between the cursor and the edge of the screen.
pub const SCROLL_MARGIN: usize = 5;

/// The state of the screen.
#[derive(Debug)]
pub struct Screen {
    pub display_lines: Vec<DisplayLine>,
    /// For each file the place of its lines: the first, and how many.
    pub file_line_ranges: Vec<Option<(usize, usize)>>,
    pub current_line_idx: usize,
    pub scroll_offset: usize,
    pub visible_height: usize,
    pub content_width: usize,
    pub side_by_side: bool,
    pub collapsed_files: NameSet,
    pub sidebar_open: bool,
    pub sidebar_focused: bool,
    pub sidebar_index: usize,
    pub sidebar_scroll: usize,
    pub selection_active: bool,
    pub selection_start: Option<usize>,
    pub selection_file_idx: Option<usize>,
    pub selection_hunk_idx: Option<usize>,
}

/// The value of a [`Screen`]. Its lines carry their syntax highlighting.
#[verifier::ext_equal]
pub struct ScreenV {
    pub lines: Seq<DisplayLineV>,
    pub ranges: Seq<Option<(usize, usize)>>,
    pub cursor: int,
    pub scroll: int,
    pub visible_height: int,
    pub content_width: int,
    pub side_by_side: bool,
    pub collapsed: Set<Seq<char>>,
    pub sidebar_open: bool,
    pub sidebar_focused: bool,
    pub sidebar_index: int,
    pub sidebar_scroll: int,
    pub selection_active: bool,
    pub selection_start: Option<int>,
    pub selection_file: Option<int>,
    pub selection_hunk: Option<int>,
}

impl View for Screen {
    type V = ScreenV;

    open spec fn view(&self) -> ScreenV {
        ScreenV {
            lines: display_views(self.display_lines@),
            ranges: self.file_line_ranges@,
            cursor: self.current_line_idx as int,
            scroll: self.scroll_offset as int,
            visible_height: self.visible_height as int,
            content_width: self.content_width as int,
            side_by_side: self.side_by_side,
            collapsed: self.collapsed_files@,
            sidebar_open: self.sidebar_open,
            sidebar_focused: self.sidebar_focused,
            sidebar_index: self.sidebar_index as int,
            sidebar_scroll: self.sidebar_scroll as int,
            selection_active: self.selection_active,
            selection_start: opt_idx(self.selection_start),
            selection_file: opt_idx(self.selection_file_idx),
            selection_hunk: opt_idx(self.selection_hunk_idx),
        }
    }
}

/// One less, or nothing of nothing.
pub open spec fn less_one(n: int) -> int {
    if n > 0 {
        n - 1
    } else {
        0
    }
}

/// What is left of `a` when `b` is taken away.
pub open spec fn minus(a: int, b: int) -> int {
    if a > b {
        a - b
    } else {
        0
    }
}

/// The lesser of two numbers.
pub open spec fn lesser(a: int, b: int) -> int {
    if a <= b {
        a
    } else {
        b
    }
}

/// The greater of two numbers.
pub open spec fn greater(a: int, b: int) -> int {
    if a >= b {
        a
    } else {
        b
    }
}

/// What stands in front of the text of an annotation.
pub open spec fn annotation_label(
    annotation_type: AnnotationType,
    resolved: bool,
    orphaned: bool,
    side_by_side: bool,
) -> Seq<char> {
    (if side_by_side {
        "   "@
    } else {
        "    "@
    }) + (if resolved {
        "✓ RESOLVED "@
    } else if orphaned {
        "⚠ ORPHANED "@
    } else {
        match annotation_type {
            AnnotationType::Comment => "💬 "@,
            AnnotationType::Todo => "📌 "@,
        }
    })
}

/// What stands in front of the text of an annotation.
pub fn annotation_label_text(
    annotation_type: AnnotationType,
    resolved: bool,
    orphaned: bool,
    side_by_side: bool,
) -> (s: String)
    ensures
        s@ == annotation_label(annotation_type, resolved, orphaned, side_by_side),
{
    let mut s = if side_by_side {
        "   ".to_owned()
    } else {
        "    ".to_owned()
    };
    s.push_str(
        if resolved {
            "✓ RESOLVED "
        } else if orphaned {
            "⚠ ORPHANED "
        } else {
            match annotation_type {
                AnnotationType::Comment => "💬 ",
                AnnotationType::Todo => "📌 ",
            }
        },
    );
    s
}

/// Whether a display line is a file header.
pub open spec fn is_header(line: DisplayLineV) -> bool {
    line is FileHeader
}

/// Whether a display line shows an addition or a deletion.
pub open spec fn is_change(line: DisplayLineV) -> bool {
    line matches DisplayLineV::Diff { line: l, .. } && l.kind != LineKind::Context
}

/// The hunk of a diff line.
pub open spec fn hunk_of(line: DisplayLineV) -> Option<int> {
    match line {
        DisplayLineV::Diff { hunk_idx, .. } => hunk_idx,
        _ => None,
    }
}

impl ScreenV {
    /// A line of the display.
    pub open spec fn line(self, i: int) -> Option<DisplayLineV> {
        if 0 <= i < self.lines.len() {
            Some(self.lines[i])
        } else {
            None
        }
    }

    /// Whether the cursor passes over a line: all but diff lines and the headers
    /// of collapsed files.
    pub open spec fn skippable(self, i: int) -> bool {
        match self.line(i) {
            Some(DisplayLineV::FileHeader { path, .. }) => !self.collapsed.contains(path),
            Some(DisplayLineV::Diff { .. }) => false,
            Some(_) => true,
            None => false,
        }
    }

    /// The first line from `i` on, up to `limit`, that the cursor can stand on.
    pub open spec fn skip_down(self, i: int, limit: int) -> int
        decreases limit - i,
    {
        if i < limit && self.skippable(i) {
            self.skip_down(i + 1, limit)
        } else {
            i
        }
    }

    /// The first line from `i` upwards that the cursor can stand on, or the top.
    pub open spec fn skip_up(self, i: int) -> int
        decreases i,
    {
        if i > 0 && self.skippable(i) {
            self.skip_up(i - 1)
        } else {
            i
        }
    }

    /// Whether another screen shows the same lines of the same files.
    pub open spec fn same_display(self, other: ScreenV) -> bool {
        &&& self.lines == other.lines
        &&& self.ranges == other.ranges
        &&& self.collapsed == other.collapsed
    }

    /// The screen with the cursor on a line.
    pub open spec fn at(self, cursor: int) -> ScreenV {
        ScreenV { cursor, ..self }
    }

    /// The screen with the cursor moved off a line that it cannot stand on:
    /// down if there is a place below, else up.
    #[verifier::opaque]
    pub open spec fn landed(self) -> ScreenV {
        if self.lines.len() == 0 || !self.skippable(self.cursor) {
            self
        } else {
            let down = self.skip_down(self.cursor, self.lines.len() as int);
            if down < self.lines.len() {
                self.at(down)
            } else {
                self.at(self.skip_up(self.cursor))
            }
        }
    }

    /// The width for text, at least one column.
    pub open spec fn text_width(self, prefix: int) -> int {
        greater(minus(greater(self.content_width, 1), prefix), 1)
    }

    /// The rows that a line takes.
    pub open spec fn height(self, i: int) -> int {
        match self.line(i) {
            Some(DisplayLineV::HunkContext { .. }) => if greater(self.content_width, 1) < 4 {
                1
            } else {
                3
            },
            Some(DisplayLineV::Diff { line, .. }) => rows_for(
                text_columns(line.content) as int,
                self.text_width(
                    if self.side_by_side {
                        7
                    } else {
                        8
                    },
                ),
            ),
            Some(DisplayLineV::Annotation { annotation, orphaned, .. }) => text_rows(
                annotation.content,
                self.text_width(
                    text_columns(
                        annotation_label(
                            annotation.annotation_type,
                            annotation.resolved_at is Some,
                            orphaned,
                            self.side_by_side,
                        ),
                    ) as int,
                ),
            ),
            _ => 1,
        }
    }

    /// The rows from line `i` to line `end`, added to those counted before;
    /// counting stops beyond `limit`.
    pub open spec fn rows_between(self, i: int, end: int, rows: int, limit: int) -> int
        decreases end - i,
    {
        if i >= end {
            rows
        } else {
            let now = sum_capped(rows, self.height(i));
            if now > limit {
                now
            } else {
                self.rows_between(i + 1, end, now, limit)
            }
        }
    }

    /// The line from which at least `target` rows stand above line `i`, of which
    /// `rows` have been counted.
    pub open spec fn offset_for_top(self, i: int, rows: int, target: int) -> int
        decreases i,
    {
        if i > 0 && rows < target {
            self.offset_for_top(i - 1, sum_capped(rows, self.height(i - 1)), target)
        } else {
            i
        }
    }

    /// The line from which at most `target` rows stand above line `i`, of which
    /// `rows` have been counted.
    pub open spec fn offset_for_bottom(self, i: int, rows: int, target: int) -> int
        decreases i,
    {
        if i > 0 && sum_capped(rows, self.height(i - 1)) <= target {
            self.offset_for_bottom(i - 1, sum_capped(rows, self.height(i - 1)), target)
        } else {
            i
        }
    }

    /// The last line from which the lines below fill the screen, where those
    /// from `i` on take `rows`.
    pub open spec fn last_screen(self, i: int, rows: int) -> int
        decreases i,
    {
        if i > 0 && rows < self.visible_height {
            self.last_screen(i - 1, sum_capped(rows, self.height(i - 1)))
        } else if rows < self.visible_height {
            0
        } else {
            i
        }
    }

    /// The furthest that the screen scrolls.
    pub open spec fn max_scroll(self) -> int {
        if self.lines.len() == 0 || self.visible_height == 0 {
            0
        } else {
            self.last_screen(self.lines.len() as int, 0)
        }
    }

    /// The screen scrolled no further than it goes.
    pub open spec fn clamped(self) -> ScreenV {
        if self.lines.len() == 0 || self.visible_height == 0 {
            self
        } else {
            ScreenV { scroll: lesser(self.scroll, self.max_scroll()), ..self }
        }
    }

    /// The nearest file header at or above a line.
    pub open spec fn header_above(self, i: int) -> Option<int>
        decreases i + 1,
    {
        if i < 0 {
            None
        } else if i < self.lines.len() && is_header(self.lines[i]) {
            Some(i)
        } else {
            self.header_above(i - 1)
        }
    }

    /// The path and the index of the file that the cursor is in.
    pub open spec fn current_file(self) -> Option<(Seq<char>, int)> {
        match self.header_above(self.cursor) {
            Some(i) => match self.lines[i] {
                DisplayLineV::FileHeader { path, file_idx } => Some((path, file_idx)),
                _ => None,
            },
            None => None,
        }
    }

    /// The file that a line belongs to.
    pub open spec fn file_of_line(self, i: int) -> Option<int> {
        self.at(lesser(i, less_one(self.lines.len() as int))).current_file_idx()
    }

    /// The index of the file that the cursor is in.
    pub open spec fn current_file_idx(self) -> Option<int> {
        match self.current_file() {
            Some((_, file_idx)) => Some(file_idx),
            None => None,
        }
    }

    /// The hunk that a line belongs to.
    pub open spec fn hunk_of_line(self, i: int) -> Option<int> {
        match self.line(i) {
            Some(line) => hunk_of(line),
            None => None,
        }
    }

    /// The screen with the sidebar on the file that the cursor is in, unless
    /// the sidebar has the focus.
    pub open spec fn sidebar_synced(self, files: int) -> ScreenV {
        if !self.sidebar_open || self.sidebar_focused {
            self
        } else {
            match self.current_file() {
                Some((_, file_idx)) => ScreenV {
                    sidebar_index: lesser(file_idx, less_one(files)),
                    ..self
                },
                None => self,
            }
        }
    }

    /// The line at the top of the screen once the cursor is in view, with
    /// a margin where there is room for one.
    pub open spec fn scroll_for_cursor(self) -> int {
        let margin = SCROLL_MARGIN as int;
        let h = self.height(self.cursor);
        let top = lesser(self.scroll, self.cursor);
        let bottom_limit = minus(self.visible_height, margin + h);
        let limit = lesser(self.visible_height + margin + h, usize::MAX as int);
        let row = self.rows_between(top, self.cursor, 0, limit);
        if row < margin {
            self.offset_for_top(self.cursor, 0, margin)
        } else if row > bottom_limit {
            self.offset_for_bottom(self.cursor, 0, bottom_limit)
        } else {
            top
        }
    }

    /// The screen scrolled to the cursor.
    #[verifier::opaque]
    pub open spec fn adjusted(self, files: int) -> ScreenV {
        if self.lines.len() == 0 || self.visible_height == 0 {
            self
        } else {
            (ScreenV { scroll: self.scroll_for_cursor(), ..self }).clamped().sidebar_synced(files)
        }
    }

    /// The screen with the cursor on a line or near it, and scrolled to it.
    #[verifier::opaque]
    pub open spec fn jumped(self, i: int, files: int) -> ScreenV {
        if self.lines.len() == 0 {
            self
        } else {
            self.at(lesser(i, less_one(self.lines.len() as int))).landed().adjusted(files)
        }
    }
}

/// The lesser of two numbers.
pub fn min_usize(a: usize, b: usize) -> (r: usize)
    ensures
        r == lesser(a as int, b as int),
{
    if a <= b {
        a
    } else {
        b
    }
}

/// The greater of two numbers.
pub fn max_usize(a: usize, b: usize) -> (r: usize)
    ensures
        r == greater(a as int, b as int),
{
    if a >= b {
        a
    } else {
        b
    }
}

/// What is left of `a` when `b` is taken away.
pub fn sub_usize(a: usize, b: usize) -> (r: usize)
    ensures
        r == minus(a as int, b as int),
{
    if a > b {
        a - b
    } else {
        0
    }
}

/// The index of the last of some things.
pub fn last_index(n: usize) -> (r: usize)
    ensures
        r == less_one(n as int),
{
    if n > 0 {
        n - 1
    } else {
        0
    }
}

/// Skipping down stops at a line that is not skippable, or at the limit.
pub proof fn lemma_skip_down(s: ScreenV, i: int, limit: int)
    requires
        i <= limit,
    ensures
        i <= s.skip_down(i, limit) <= limit,
        s.skip_down(i, limit) < limit ==> !s.skippable(s.skip_down(i, limit)),
        forall|k: int| i <= k < s.skip_down(i, limit) ==> s.skippable(k),
    decreases limit - i,
{
    if i < limit && s.skippable(i) {
        lemma_skip_down(s, i + 1, limit);
    }
}

/// Skipping up stops at a line that is not skippable, or at the top.
pub proof fn lemma_skip_up(s: ScreenV, i: int)
    requires
        i >= 0,
    ensures
        0 <= s.skip_up(i) <= i,
        s.skip_up(i) > 0 ==> !s.skippable(s.skip_up(i)),
        forall|k: int| s.skip_up(i) < k <= i ==> s.skippable(k),
    decreases i,
{
    if i > 0 && s.skippable(i) {
        lemma_skip_up(s, i - 1);
    }
}

/// The header above a line is a header, and there is none between.
pub proof fn lemma_header_above(s: ScreenV, i: int)
    ensures
        match s.header_above(i) {
            Some(h) => 0 <= h <= i && h < s.lines.len() && is_header(s.lines[h]) && forall|k: int|
                h < k <= i && k < s.lines.len() ==> !is_header(#[trigger] s.lines[k]),
            None => forall|k: int| 0 <= k <= i && k < s.lines.len() ==> !is_header(
                #[trigger] s.lines[k],
            ),
        },
    decreases i + 1,
{
    if i >= 0 && !(i < s.lines.len() && is_header(s.lines[i])) {
        lemma_header_above(s, i - 1);
    }
}

impl Screen {
    /// The current display line.
    pub fn current_display_line(&self) -> (r: Option<&DisplayLine>)
        ensures
            match r {
                Some(line) => self.current_line_idx < self.display_lines@.len() && *line
                    == self.display_lines@[self.current_line_idx as int] && self@.line(
                    self@.cursor,
                ) == Some(line@),
                None => self@.line(self@.cursor) is None,
            },
    {
        if self.current_line_idx < self.display_lines.len() {
            Some(&self.display_lines[self.current_line_idx])
        } else {
            None
        }
    }

    /// Whether the cursor passes over a line.
    pub fn is_skippable_line(&self, idx: usize) -> (r: bool)
        ensures
            r == self@.skippable(idx as int),
    {
        if idx >= self.display_lines.len() {
            return false;
        }
        assert(self@.lines[idx as int] == self.display_lines@[idx as int]@);
        match &self.display_lines[idx] {
            DisplayLine::FileHeader { path, .. } => !self.collapsed_files.contains(path.as_str()),
            DisplayLine::Diff { .. } => false,
            _ => true,
        }
    }

    /// The first line from `i` on, up to `limit`, that the cursor can stand on.
    pub fn skip_down(&self, i: usize, limit: usize) -> (r: usize)
        requires
            i <= limit,
        ensures
            r == self@.skip_down(i as int, limit as int),
            i <= r <= limit,
    {
        let mut k = i;
        while k < limit && self.is_skippable_line(k)
            invariant
                i <= k <= limit,
                self@.skip_down(i as int, limit as int) == self@.skip_down(k as int, limit as int),
            decreases limit - k,
        {
            k = k + 1;
        }
        k
    }

    /// The first line from `i` upwards that the cursor can stand on, or the top.
    pub fn skip_up(&self, i: usize) -> (r: usize)
        ensures
            r == self@.skip_up(i as int),
            r <= i,
    {
        let mut k = i;
        while k > 0 && self.is_skippable_line(k)
            invariant
                k <= i,
                self@.skip_up(i as int) == self@.skip_up(k as int),
            decreases k,
        {
            k = k - 1;
        }
        k
    }

    /// Moves the cursor off a line that it cannot stand on.
    pub fn ensure_cursor_on_navigable(&mut self)
        ensures
            final(self)@ == old(self)@.landed(),
            final(self)@.same_display(old(self)@),
    {
        reveal(ScreenV::landed);
        if self.display_lines.len() == 0 || !self.is_skippable_line(self.current_line_idx) {
            return ;
        }
        let down = self.skip_down(self.current_line_idx, self.display_lines.len());
        if down < self.display_lines.len() {
            self.current_line_idx = down;
        } else {
            self.current_line_idx = self.skip_up(self.current_line_idx);
        }
        assert(self@ =~= old(self)@.landed());
    }

    /// The rows that a line takes.
    pub fn display_line_height(&self, idx: usize) -> (r: usize)
        ensures
            r == self@.height(idx as int),
            r >= 1,
    {
        if idx >= self.display_lines.len() {
            return 1;
        }
        assert(self@.lines[idx as int] == self.display_lines@[idx as int]@);
        let width = max_usize(self.content_width, 1);
        match &self.display_lines[idx] {
            DisplayLine::HunkContext { .. } => if width < 4 {
                1
            } else {
                3
            },
            DisplayLine::Diff { line, .. } => {
                let prefix: usize = if self.side_by_side {
                    7
                } else {
                    8
                };
                let room = max_usize(sub_usize(width, prefix), 1);
                row_count(text_width(line.content.as_str()), room)
            },
            DisplayLine::Annotation { annotation, orphaned, .. } => {
                let label = annotation_label_text(
                    annotation.annotation_type,
                    annotation.resolved_at.is_some(),
                    *orphaned,
                    self.side_by_side,
                );
                let room = max_usize(sub_usize(width, text_width(label.as_str())), 1);
                wrapped_line_count(annotation.content.as_str(), room)
            },
            _ => 1,
        }
    }

    /// The rows between two lines; counting stops beyond a limit.
    pub fn rows_between_limited(&self, start: usize, end: usize, limit: usize) -> (r: usize)
        ensures
            r == self@.rows_between(start as int, end as int, 0, limit as int),
    {
        let mut rows: usize = 0;
        let mut i = start;
        while i < end
            invariant
                start <= i,
                i <= end || i == start,
                self@.rows_between(start as int, end as int, 0, limit as int) == self@.rows_between(
                    i as int,
                    end as int,
                    rows as int,
                    limit as int,
                ),
            decreases end - i,
        {
            rows = capped_sum(rows, self.display_line_height(i));
            if rows > limit {
                return rows;
            }
            i = i + 1;
        }
        rows
    }

    /// The line from which some rows stand above the cursor.
    pub fn scroll_offset_for_top(&self, target_top: usize) -> (r: usize)
        ensures
            r == self@.offset_for_top(self@.cursor, 0, target_top as int),
    {
        let mut rows: usize = 0;
        let mut i = self.current_line_idx;
        while i > 0 && rows < target_top
            invariant
                self@.offset_for_top(self@.cursor, 0, target_top as int) == self@.offset_for_top(
                    i as int,
                    rows as int,
                    target_top as int,
                ),
            decreases i,
        {
            i = i - 1;
            rows = capped_sum(rows, self.display_line_height(i));
        }
        i
    }

    /// The line from which no more than some rows stand above the cursor.
    pub fn scroll_offset_for_bottom(&self, target_bottom: usize) -> (r: usize)
        ensures
            r == self@.offset_for_bottom(self@.cursor, 0, target_bottom as int),
    {
        let mut rows: usize = 0;
        let mut i = self.current_line_idx;
        while i > 0
            invariant
                self@.offset_for_bottom(self@.cursor, 0, target_bottom as int)
                    == self@.offset_for_bottom(i as int, rows as int, target_bottom as int),
            decreases i,
        {
            let next = capped_sum(rows, self.display_line_height(i - 1));
            if next > target_bottom {
                return i;
            }
            i = i - 1;
            rows = next;
        }
        i
    }

    /// The furthest that the screen scrolls.
    pub fn max_scroll_offset(&self) -> (r: usize)
        ensures
            r == self@.max_scroll(),
    {
        if self.display_lines.len() == 0 || self.visible_height == 0 {
            return 0;
        }
        let mut rows: usize = 0;
        let mut i = self.display_lines.len();
        while i > 0 && rows < self.visible_height
            invariant
                self@.max_scroll() == self@.last_screen(i as int, rows as int),
            decreases i,
        {
            i = i - 1;
            rows = capped_sum(rows, self.display_line_height(i));
        }
        if rows < self.visible_height {
            0
        } else {
            i
        }
    }

    /// Scrolls back to the last full screen.
    pub fn clamp_scroll(&mut self)
        ensures
            final(self)@ == old(self)@.clamped(),
            final(self)@.same_display(old(self)@),
    {
        if self.display_lines.len() == 0 || self.visible_height == 0 {
            return ;
        }
        let max = self.max_scroll_offset();
        if self.scroll_offset > max {
            self.scroll_offset = max;
        }
        assert(self@ =~= old(self)@.clamped());
    }

    /// The nearest file header at or above a line.
    pub fn header_above(&self, idx: usize) -> (r: Option<usize>)
        ensures
            opt_idx(r) == self@.header_above(idx as int),
            r matches Some(h) ==> h <= idx && h < self.display_lines@.len(),
    {
        let mut i = idx;
        loop
            invariant
                i <= idx,
                self@.header_above(idx as int) == self@.header_above(i as int),
            decreases i,
        {
            if i < self.display_lines.len() {
                assert(self@.lines[i as int] == self.display_lines@[i as int]@);
                if let DisplayLine::FileHeader { .. } = &self.display_lines[i] {
                    return Some(i);
                }
            }
            if i == 0 {
                assert(self@.header_above(-1) is None);
                return None;
            }
            i = i - 1;
        }
    }

    /// The path and the index of the file that the cursor is in.
    pub fn current_file_info(&self) -> (r: Option<(String, usize)>)
        ensures
            match r {
                Some((path, file_idx)) => self@.current_file() == Some((path@, file_idx as int)),
                None => self@.current_file() is None,
            },
    {
        match self.header_above(self.current_line_idx) {
            Some(i) => {
                proof {
                    lemma_header_above(self@, self@.cursor);
                    assert(self@.lines[i as int] == self.display_lines@[i as int]@);
                }
                match &self.display_lines[i] {
                    DisplayLine::FileHeader { path, file_idx } => Some((path.clone(), *file_idx)),
                    _ => None,
                }
            },
            None => None,
        }
    }

    /// The file that a line belongs to.
    pub fn file_idx_for_line(&self, idx: usize) -> (r: Option<usize>)
        ensures
            opt_idx(r) == self@.file_of_line(idx as int),
    {
        let end = min_usize(idx, last_index(self.display_lines.len()));
        proof {
            lemma_header_above_at(self@, end as int);
            lemma_header_above(self@, end as int);
        }
        match self.header_above(end) {
            Some(i) => {
                assert(self@.lines[i as int] == self.display_lines@[i as int]@);
                match &self.display_lines[i] {
                    DisplayLine::FileHeader { file_idx, .. } => Some(*file_idx),
                    _ => None,
                }
            },
            None => None,
        }
    }

    /// The hunk that a line belongs to.
    pub fn hunk_idx_for_line(&self, idx: usize) -> (r: Option<usize>)
        ensures
            opt_idx(r) == self@.hunk_of_line(idx as int),
    {
        if idx >= self.display_lines.len() {
            return None;
        }
        assert(self@.lines[idx as int] == self.display_lines@[idx as int]@);
        match &self.display_lines[idx] {
            DisplayLine::Diff { hunk_idx, .. } => *hunk_idx,
            _ => None,
        }
    }

    /// Puts the sidebar on the file that the cursor is in.
    pub fn sync_sidebar_to_current_file(&mut self, files: usize)
        ensures
            final(self)@ == old(self)@.sidebar_synced(files as int),
            final(self)@.same_display(old(self)@),
    {
        if !self.sidebar_open || self.sidebar_focused {
            return ;
        }
        if let Some((_, file_idx)) = self.current_file_info() {
            self.sidebar_index = min_usize(file_idx, last_index(files));
        }
        assert(self@ =~= old(self)@.sidebar_synced(files as int));
    }

    /// Scrolls so that the cursor is in view, with a margin.
    pub fn adjust_scroll(&mut self, files: usize)
        ensures
            final(self)@ == old(self)@.adjusted(files as int),
            final(self)@.same_display(old(self)@),
    {
        reveal(ScreenV::adjusted);
        if self.display_lines.len() == 0 || self.visible_height == 0 {
            return ;
        }
        let ghost s0 = self@;
        let top = min_usize(self.scroll_offset, self.current_line_idx);
        let h = self.display_line_height(self.current_line_idx);
        let edge = capped_sum(SCROLL_MARGIN, h);
        let bottom_limit = sub_usize(self.visible_height, edge);
        let limit = capped_sum(self.visible_height, edge);
        let row = self.rows_between_limited(top, self.current_line_idx, limit);
        let scroll = if row < SCROLL_MARGIN {
            self.scroll_offset_for_top(SCROLL_MARGIN)
        } else if row > bottom_limit {
            self.scroll_offset_for_bottom(bottom_limit)
        } else {
            top
        };
        self.scroll_offset = scroll;
        assert(self@ =~= (ScreenV { scroll: s0.scroll_for_cursor(), ..s0 }));
        self.clamp_scroll();
        self.sync_sidebar_to_current_file(files);
    }

    /// Puts the cursor on a line or near it.
    pub fn jump_to_line(&mut self, idx: usize, files: usize)
        ensures
            final(self)@ == old(self)@.jumped(idx as int, files as int),
            final(self)@.same_display(old(self)@),
    {
        reveal(ScreenV::jumped);
        if self.display_lines.len() == 0 {
            return ;
        }
        let ghost s0 = self@;
        self.current_line_idx = min_usize(idx, last_index(self.display_lines.len()));
        assert(self@ =~= s0.at(lesser(idx as int, less_one(s0.lines.len() as int))));
        self.ensure_cursor_on_navigable();
        self.adjust_scroll(files);
    }
}

/// Landing changes the cursor alone.
pub proof fn lemma_landed_frame(s: ScreenV)
    ensures
        s.landed() == s.at(s.landed().cursor),
{
    reveal(ScreenV::landed);
}

/// Scrolling changes the scroll position and the sidebar alone.
pub proof fn lemma_adjusted_frame(s: ScreenV, files: int)
    ensures
        s.adjusted(files) == (ScreenV {
            scroll: s.adjusted(files).scroll,
            sidebar_index: s.adjusted(files).sidebar_index,
            ..s
        }),
{
    reveal(ScreenV::adjusted);
}

/// Headers do not depend on the cursor.
pub proof fn lemma_header_above_at(s: ScreenV, c: int)
    ensures
        forall|i: int| s.at(c).header_above(i) == #[trigger] s.header_above(i),
{
    assert forall|i: int| s.at(c).header_above(i) == #[trigger] s.header_above(i) by {
        lemma_header_same(s, s.at(c), i);
    }
}

/// Screens with the same lines have the same headers.
pub proof fn lemma_header_same(a: ScreenV, b: ScreenV, i: int)
    requires
        a.lines == b.lines,
    ensures
        a.header_above(i) == b.header_above(i),
    decreases i + 1,
{
    if i >= 0 {
        lemma_header_same(a, b, i - 1);
    }
}

} // verus!
