//! Moving over the display: by lines, pages, files, hunks and changes.
use vstd::prelude::*;

use crate::diff::DiffLineV;
use crate::display::{opt_idx, DisplayLine, DisplayLineV};
use crate::outside::str_eq;
use crate::screen::{
    is_change, is_header, last_index, lemma_adjusted_frame, lemma_landed_frame, lemma_skip_down,
    lemma_skip_up, less_one, lesser, max_usize, min_usize, minus, greater, sub_usize, Screen,
    ScreenV, SCROLL_MARGIN,
};
use crate::text::{join, joined, texts};

verus! {

/// The number that a diff line is looked up by: the new one, else the old one.
pub open spec fn line_no_of(line: DiffLineV) -> Option<u32> {
    match (line.new_line_no, line.old_line_no) {
        (Some(n), _) => Some(n),
        (None, o) => o,
    }
}

/// How far apart two line numbers are.
pub open spec fn line_gap(a: u32, b: u32) -> int {
    if a >= b {
        a - b
    } else {
        b - a
    }
}

impl ScreenV {
    /// Where the cursor stands once a move to `to` is kept inside the selection:
    /// a move to another file or another hunk is not made.
    pub open spec fn kept_in_selection(self, to: int) -> int {
        if !self.selection_active {
            to
        } else {
            let same_file = match (self.selection_file, self.file_of_line(to)) {
                (Some(f), Some(g)) if f != g => self.cursor,
                _ => to,
            };
            if self.selection_hunk != self.hunk_of_line(same_file) {
                self.cursor
            } else {
                same_file
            }
        }
    }

    /// One line up.
    #[verifier::opaque]
    pub open spec fn up(self, files: int) -> ScreenV {
        if self.cursor > 0 {
            self.at(self.kept_in_selection(self.skip_up(self.cursor - 1))).landed().adjusted(files)
        } else {
            self
        }
    }

    /// One line down.
    #[verifier::opaque]
    pub open spec fn down(self, files: int) -> ScreenV {
        let last = less_one(self.lines.len() as int);
        if self.cursor < last {
            self.at(self.kept_in_selection(self.skip_down(self.cursor + 1, last))).landed().adjusted(
                files,
            )
        } else {
            self
        }
    }

    /// So many lines up, one after the other.
    pub open spec fn up_times(self, n: int, files: int) -> ScreenV
        decreases n,
    {
        if n <= 0 {
            self
        } else {
            self.up_times(n - 1, files).up(files)
        }
    }

    /// So many lines down, one after the other.
    pub open spec fn down_times(self, n: int, files: int) -> ScreenV
        decreases n,
    {
        if n <= 0 {
            self
        } else {
            self.down_times(n - 1, files).down(files)
        }
    }

    /// The cursor so many steps up, without scrolling.
    pub open spec fn stepped_up(self, n: int) -> ScreenV
        decreases n,
    {
        if n <= 0 {
            self
        } else {
            let s = self.stepped_up(n - 1);
            if s.cursor > 0 {
                s.at(s.skip_up(s.cursor - 1))
            } else {
                s
            }
        }
    }

    /// The cursor so many steps down, without scrolling.
    pub open spec fn stepped_down(self, n: int) -> ScreenV
        decreases n,
    {
        if n <= 0 {
            self
        } else {
            let s = self.stepped_down(n - 1);
            let last = less_one(s.lines.len() as int);
            if s.cursor < last {
                s.at(s.skip_down(s.cursor + 1, last))
            } else {
                s
            }
        }
    }

    /// Half a page down.
    pub open spec fn paged_down(self, files: int) -> ScreenV {
        let half = self.visible_height / 2;
        if self.selection_active {
            self.down_times(half, files)
        } else {
            self.stepped_down(half).landed().adjusted(files)
        }
    }

    /// Half a page up.
    pub open spec fn paged_up(self, files: int) -> ScreenV {
        let half = self.visible_height / 2;
        if self.selection_active {
            self.up_times(half, files)
        } else {
            self.stepped_up(half).landed().adjusted(files)
        }
    }

    /// The cursor on a line or near it, and in view.
    #[verifier::opaque]
    pub open spec fn moved_to(self, i: int, files: int) -> ScreenV {
        self.at(i).landed().adjusted(files)
    }

    /// The first file header from a line on.
    pub open spec fn header_below(self, i: int) -> Option<int>
        decreases self.lines.len() - i,
    {
        if i >= self.lines.len() {
            None
        } else if i >= 0 && is_header(self.lines[i]) {
            Some(i)
        } else {
            self.header_below(i + 1)
        }
    }

    /// The next file.
    pub open spec fn to_next_file(self, files: int) -> ScreenV {
        match self.header_below(self.cursor + 1) {
            Some(i) => self.moved_to(i, files),
            None => self,
        }
    }

    /// The file before the one that the cursor is in.
    pub open spec fn to_prev_file(self, files: int) -> ScreenV {
        match self.header_above(self.cursor) {
            Some(h) => match self.header_above(h - 1) {
                Some(i) => self.moved_to(i, files),
                None => self,
            },
            None => self,
        }
    }

    /// The first line.
    pub open spec fn to_start(self) -> ScreenV {
        ScreenV { scroll: 0, ..self.at(self.skip_down(0, less_one(self.lines.len() as int))) }
    }

    /// The last line.
    pub open spec fn to_end(self, files: int) -> ScreenV {
        self.at(self.skip_up(less_one(self.lines.len() as int))).adjusted(files)
    }

    /// Whether a line is an addition or a deletion.
    pub open spec fn change_at(self, i: int) -> bool {
        0 <= i < self.lines.len() && is_change(self.lines[i])
    }

    /// The first line from `i` on that is not a change.
    pub open spec fn chunk_end(self, i: int) -> int
        decreases self.lines.len() - i,
    {
        if self.change_at(i) {
            self.chunk_end(i + 1)
        } else {
            i
        }
    }

    /// The first change from `i` on, below `limit`; `limit` if there is none.
    pub open spec fn change_below(self, i: int, limit: int) -> int
        decreases limit - i,
    {
        if i < limit && !self.change_at(i) {
            self.change_below(i + 1, limit)
        } else {
            i
        }
    }

    /// The first line from `i` upwards that is not a change, or the top.
    pub open spec fn out_of_chunk(self, i: int) -> int
        decreases i,
    {
        if i > 0 && self.change_at(i) {
            self.out_of_chunk(i - 1)
        } else {
            i
        }
    }

    /// The first change from `i` upwards and above `limit`; `limit` if there is
    /// none.
    pub open spec fn change_above(self, i: int, limit: int) -> int
        decreases i - limit,
    {
        if i > limit && !self.change_at(i) {
            self.change_above(i - 1, limit)
        } else {
            i
        }
    }

    /// The first line of the run of changes that ends above `i`.
    pub open spec fn chunk_start(self, i: int) -> int
        decreases i,
    {
        if i > 0 && self.change_at(i - 1) {
            self.chunk_start(i - 1)
        } else {
            i
        }
    }

    /// The start of the next run of changes; behind the last one the first.
    pub open spec fn next_chunk(self) -> Option<int> {
        let total = self.lines.len() as int;
        let below = self.change_below(self.chunk_end(self.cursor), total);
        if below < total {
            Some(below)
        } else {
            let first = self.change_below(0, self.cursor);
            if first < self.cursor && self.change_at(first) {
                Some(first)
            } else {
                None
            }
        }
    }

    /// The start of the run of changes before the cursor; before the first one
    /// the last.
    pub open spec fn prev_chunk(self) -> Option<int> {
        let from = if self.cursor > 0 && self.change_at(self.cursor) && !self.change_at(
            self.cursor - 1,
        ) {
            self.cursor - 1
        } else {
            self.cursor
        };
        let above = self.chunk_start(self.change_above(self.out_of_chunk(from), 0));
        if self.change_at(above) {
            Some(above)
        } else {
            let last = self.chunk_start(
                self.change_above(less_one(self.lines.len() as int), self.cursor),
            );
            if self.change_at(last) {
                Some(last)
            } else {
                None
            }
        }
    }

    /// The first line from `i` on that is in a hunk other than `hunk`.
    pub open spec fn other_hunk_below(self, i: int, hunk: Option<int>) -> Option<int>
        decreases self.lines.len() - i,
    {
        if i >= self.lines.len() {
            None
        } else if self.hunk_of_line(i) is Some && self.hunk_of_line(i) != hunk {
            Some(i)
        } else {
            self.other_hunk_below(i + 1, hunk)
        }
    }

    /// The first line above `i` and not above `limit` that is in a hunk other
    /// than `hunk`.
    pub open spec fn other_hunk_above(self, i: int, limit: int, hunk: Option<int>) -> Option<int>
        decreases i - limit,
    {
        if i <= limit {
            None
        } else if self.hunk_of_line(i - 1) is Some && self.hunk_of_line(i - 1) != hunk {
            Some(i - 1)
        } else {
            self.other_hunk_above(i - 1, limit, hunk)
        }
    }

    /// The first of the lines up to `i` that follow each other in a hunk.
    pub open spec fn hunk_start(self, i: int, hunk: Option<int>) -> int
        decreases i,
    {
        if i > 0 && self.hunk_of_line(i - 1) == hunk {
            self.hunk_start(i - 1, hunk)
        } else {
            i
        }
    }

    /// The next hunk of an expanded file; behind the last one the first.
    pub open spec fn next_hunk(self) -> Option<int> {
        match self.other_hunk_below(self.cursor + 1, self.hunk_of_line(self.cursor)) {
            Some(i) => Some(i),
            None => self.other_hunk_below(0, None),
        }
    }

    /// The start of the hunk before the cursor in an expanded file; before the
    /// first one that of the last. The top line is not looked at then.
    pub open spec fn prev_hunk(self) -> Option<int> {
        let found = match self.other_hunk_above(self.cursor, 0, self.hunk_of_line(self.cursor)) {
            Some(i) => Some(i),
            None => self.other_hunk_above(self.lines.len() as int, 1, None),
        };
        match found {
            Some(i) => Some(self.hunk_start(i, self.hunk_of_line(i))),
            None => None,
        }
    }

    /// The next change: a run of changes, or in an expanded file a hunk.
    pub open spec fn to_next_change(self, expanded: bool, files: int) -> ScreenV {
        match if expanded {
            self.next_hunk()
        } else {
            self.next_chunk()
        } {
            Some(i) => self.jumped(i, files),
            None => self,
        }
    }

    /// The previous change: a run of changes, or in an expanded file a hunk.
    pub open spec fn to_prev_change(self, expanded: bool, files: int) -> ScreenV {
        match if expanded {
            self.prev_hunk()
        } else {
            self.prev_chunk()
        } {
            Some(i) => self.jumped(i, files),
            None => self,
        }
    }

    /// Scrolled by some lines, within the display.
    pub open spec fn scrolled_by(self, delta: int) -> ScreenV {
        if self.lines.len() == 0 {
            self
        } else {
            ScreenV {
                scroll: lesser(
                    greater(self.scroll + delta, 0),
                    minus(self.lines.len() as int, self.visible_height),
                ),
                ..self
            }
        }
    }

    /// Scrolled so that the cursor is in the middle.
    #[verifier::opaque]
    pub open spec fn centered(self) -> ScreenV {
        if self.visible_height == 0 {
            self
        } else {
            (ScreenV { scroll: minus(self.cursor, self.visible_height / 2), ..self }).clamped()
        }
    }

    /// The selected lines: from the first to the last.
    pub open spec fn selection(self) -> Option<(int, int)> {
        match self.selection_start {
            Some(start) if self.selection_active => Some(
                (lesser(start, self.cursor), greater(start, self.cursor)),
            ),
            _ => None,
        }
    }

    /// Without a selection.
    pub open spec fn unselected(self) -> ScreenV {
        ScreenV {
            selection_active: false,
            selection_start: None,
            selection_file: None,
            selection_hunk: None,
            ..self
        }
    }

    /// The texts of the diff lines in `from..to`.
    pub open spec fn diff_texts(self, from: int, to: int) -> Seq<Seq<char>>
        decreases to - from,
    {
        if to <= from {
            Seq::empty()
        } else {
            let before = self.diff_texts(from, to - 1);
            match self.line(to - 1) {
                Some(DisplayLineV::Diff { line, .. }) => before.push(line.content),
                _ => before,
            }
        }
    }

    /// The text of the selected lines.
    pub open spec fn selected_text(self) -> Option<Seq<char>> {
        match self.selection() {
            Some((a, b)) => {
                let all = self.diff_texts(a, b + 1);
                if all.len() == 0 {
                    None
                } else {
                    Some(joined(all, "\n"@))
                }
            },
            None => None,
        }
    }

    /// The least and the greatest new line number in `from..to`.
    pub open spec fn new_line_span(self, from: int, to: int) -> Option<(u32, u32)>
        decreases to - from,
    {
        if to <= from {
            None
        } else {
            let before = self.new_line_span(from, to - 1);
            match self.line(to - 1) {
                Some(DisplayLineV::Diff { line, .. }) => match (line.new_line_no, before) {
                    (Some(n), Some((lo, hi))) => Some(
                        (
                            if n < lo {
                                n
                            } else {
                                lo
                            },
                            if n > hi {
                                n
                            } else {
                                hi
                            },
                        ),
                    ),
                    (Some(n), None) => Some((n, n)),
                    (None, _) => before,
                },
                _ => before,
            }
        }
    }

    /// The first line from `i` on with a new (or old) line number.
    pub open spec fn line_numbered(self, i: int, no: u32, old_side: bool) -> Option<int>
        decreases self.lines.len() - i,
    {
        match self.line(i) {
            Some(DisplayLineV::Diff { line, .. }) if (if old_side {
                line.old_line_no
            } else {
                line.new_line_no
            }) == Some(no) => Some(i),
            _ => if 0 <= i < self.lines.len() {
                self.line_numbered(i + 1, no, old_side)
            } else {
                None
            },
        }
    }

    /// The number of a diff line of a file.
    pub open spec fn number_in_file(self, i: int, path: Seq<char>) -> Option<u32> {
        match self.line(i) {
            Some(DisplayLineV::Diff { line, file_path, .. }) if file_path == path => line_no_of(line),
            _ => None,
        }
    }

    /// Among the first `n` lines, the first of those of a file whose number is
    /// nearest to a given one.
    pub open spec fn nearest(self, n: int, path: Seq<char>, no: u32) -> Option<int>
        decreases n,
    {
        if n <= 0 {
            None
        } else {
            let before = self.nearest(n - 1, path, no);
            match (self.number_in_file(n - 1, path), before) {
                (Some(m), Some(k)) => if line_gap(m, no) < line_gap(
                    self.number_in_file(k, path)->0,
                    no,
                ) {
                    Some(n - 1)
                } else {
                    before
                },
                (Some(_), None) => Some(n - 1),
                (None, _) => before,
            }
        }
    }

    /// The line of a file that is nearest to a line number.
    pub open spec fn best_line(self, path: Seq<char>, no: u32) -> Option<int> {
        self.nearest(self.lines.len() as int, path, no)
    }

    /// The header of a file, from line `i` on.
    pub open spec fn header_of_file(self, i: int, file_idx: int) -> Option<int>
        decreases self.lines.len() - i,
    {
        match self.line(i) {
            Some(DisplayLineV::FileHeader { file_idx: f, .. }) if f == file_idx => Some(i),
            _ => if 0 <= i < self.lines.len() {
                self.header_of_file(i + 1, file_idx)
            } else {
                None
            },
        }
    }

    /// The file and the hunk that the cursor is on.
    pub open spec fn current_hunk(self) -> Option<(int, int)> {
        match self.line(self.cursor) {
            Some(DisplayLineV::Diff { file_idx, hunk_idx: Some(h), .. }) => Some((file_idx, h)),
            Some(DisplayLineV::HunkHeader { file_idx, hunk_idx, .. }) => Some((file_idx, hunk_idx)),
            Some(DisplayLineV::HunkEnd { file_idx, hunk_idx }) => Some((file_idx, hunk_idx)),
            _ => None,
        }
    }

    /// The file and the line number to come back to after a reload.
    pub open spec fn target(self) -> Option<(Seq<char>, u32)> {
        match self.line(self.cursor) {
            Some(DisplayLineV::Diff { line, file_path, .. }) => match line_no_of(line) {
                Some(n) => Some((file_path, n)),
                None => None,
            },
            Some(DisplayLineV::Annotation { annotation, .. }) => Some(
                (annotation.file_path, annotation.start_line),
            ),
            _ => match self.current_file() {
                Some((path, _)) => Some((path, 1)),
                None => None,
            },
        }
    }
}

impl Screen {
    fn kept_in_selection(&self, to: usize) -> (r: usize)
        ensures
            r == self@.kept_in_selection(to as int),
    {
        let mut to = to;
        if self.selection_active {
            if let Some(sel_file) = self.selection_file_idx {
                if let Some(file) = self.file_idx_for_line(to) {
                    if sel_file != file {
                        to = self.current_line_idx;
                    }
                }
            }
            let hunk = self.hunk_idx_for_line(to);
            let same = match (self.selection_hunk_idx, hunk) {
                (Some(a), Some(b)) => a == b,
                (None, None) => true,
                _ => false,
            };
            if !same {
                to = self.current_line_idx;
            }
        }
        to
    }

    /// Moves the cursor and brings it into view.
    pub fn move_to(&mut self, idx: usize, files: usize)
        ensures
            final(self)@ == old(self)@.moved_to(idx as int, files as int),
            final(self)@.same_display(old(self)@),
    {
        reveal(ScreenV::moved_to);
        self.current_line_idx = idx;
        assert(self@ =~= old(self)@.at(idx as int));
        self.ensure_cursor_on_navigable();
        self.adjust_scroll(files);
    }

    /// Moves one line up.
    pub fn navigate_up(&mut self, files: usize)
        ensures
            final(self)@ == old(self)@.up(files as int),
            final(self)@.same_display(old(self)@),
    {
        reveal(ScreenV::up);
        reveal(ScreenV::moved_to);
        if self.current_line_idx > 0 {
            let to = self.skip_up(self.current_line_idx - 1);
            let to = self.kept_in_selection(to);
            self.move_to(to, files);
        }
    }

    /// Moves one line down.
    pub fn navigate_down(&mut self, files: usize)
        ensures
            final(self)@ == old(self)@.down(files as int),
            final(self)@.same_display(old(self)@),
    {
        reveal(ScreenV::down);
        reveal(ScreenV::moved_to);
        let last = last_index(self.display_lines.len());
        if self.current_line_idx < last {
            let to = self.skip_down(self.current_line_idx + 1, last);
            let to = self.kept_in_selection(to);
            self.move_to(to, files);
        }
    }

    /// Moves half a page down.
    pub fn page_down(&mut self, files: usize)
        ensures
            final(self)@ == old(self)@.paged_down(files as int),
            final(self)@.same_display(old(self)@),
    {
        let half = self.visible_height / 2;
        let ghost s0 = self@;
        let mut i: usize = 0;
        if self.selection_active {
            while i < half
                invariant
                    i <= half,
                    self@ == s0.down_times(i as int, files as int),
                    self@.same_display(s0),
                decreases half - i,
            {
                self.navigate_down(files);
                i = i + 1;
            }
            return ;
        }
        while i < half
            invariant
                i <= half,
                self@ == s0.stepped_down(i as int),
                self@.same_display(s0),
            decreases half - i,
        {
            let ghost s = self@;
            let last = last_index(self.display_lines.len());
            if self.current_line_idx < last {
                let to = self.skip_down(self.current_line_idx + 1, last);
                self.current_line_idx = to;
                assert(self@ =~= s.at(to as int));
            }
            i = i + 1;
        }
        self.ensure_cursor_on_navigable();
        self.adjust_scroll(files);
    }

    /// Moves half a page up.
    pub fn page_up(&mut self, files: usize)
        ensures
            final(self)@ == old(self)@.paged_up(files as int),
            final(self)@.same_display(old(self)@),
    {
        let half = self.visible_height / 2;
        let ghost s0 = self@;
        let mut i: usize = 0;
        if self.selection_active {
            while i < half
                invariant
                    i <= half,
                    self@ == s0.up_times(i as int, files as int),
                    self@.same_display(s0),
                decreases half - i,
            {
                self.navigate_up(files);
                i = i + 1;
            }
            return ;
        }
        while i < half
            invariant
                i <= half,
                self@ == s0.stepped_up(i as int),
                self@.same_display(s0),
            decreases half - i,
        {
            let ghost s = self@;
            if self.current_line_idx > 0 {
                let to = self.skip_up(self.current_line_idx - 1);
                self.current_line_idx = to;
                assert(self@ =~= s.at(to as int));
            }
            i = i + 1;
        }
        self.ensure_cursor_on_navigable();
        self.adjust_scroll(files);
    }

    /// Jumps to the next file header.
    pub fn next_file(&mut self, files: usize)
        ensures
            final(self)@ == old(self)@.to_next_file(files as int),
            final(self)@.same_display(old(self)@),
    {
        if self.current_line_idx >= self.display_lines.len() {
            return ;
        }
        let ghost s0 = self@;
        let mut i: usize = self.current_line_idx + 1;
        while i < self.display_lines.len()
            invariant
                i >= 1,
                s0 == old(self)@,
                self@ == s0,
                s0.header_below(s0.cursor + 1) == s0.header_below(i as int),
            decreases self.display_lines@.len() - i,
        {
            assert(self@.lines[i as int] == self.display_lines@[i as int]@);
            if let DisplayLine::FileHeader { .. } = &self.display_lines[i] {
                self.move_to(i, files);
                return ;
            }
            i = i + 1;
        }
    }

    /// Jumps to the previous file header.
    pub fn prev_file(&mut self, files: usize)
        ensures
            final(self)@ == old(self)@.to_prev_file(files as int),
            final(self)@.same_display(old(self)@),
    {
        if let Some(h) = self.header_above(self.current_line_idx) {
            if h > 0 {
                if let Some(i) = self.header_above(h - 1) {
                    self.move_to(i, files);
                }
            } else {
                assert(self@.header_above(-1) is None);
            }
        }
    }

    /// Jumps to the first line.
    pub fn go_to_start(&mut self)
        ensures
            final(self)@ == old(self)@.to_start(),
            final(self)@.same_display(old(self)@),
    {
        self.current_line_idx = self.skip_down(0, last_index(self.display_lines.len()));
        self.scroll_offset = 0;
        assert(self@ =~= old(self)@.to_start());
    }

    /// Jumps to the last line.
    pub fn go_to_end(&mut self, files: usize)
        ensures
            final(self)@ == old(self)@.to_end(files as int),
            final(self)@.same_display(old(self)@),
    {
        let ghost s0 = self@;
        let to = self.skip_up(last_index(self.display_lines.len()));
        self.current_line_idx = to;
        assert(self@ =~= s0.at(to as int));
        self.adjust_scroll(files);
    }

    /// Whether a line is an addition or a deletion.
    pub fn is_change_line(&self, idx: usize) -> (r: bool)
        ensures
            r == self@.change_at(idx as int),
    {
        if idx >= self.display_lines.len() {
            return false;
        }
        assert(self@.lines[idx as int] == self.display_lines@[idx as int]@);
        match &self.display_lines[idx] {
            DisplayLine::Diff { line, .. } => line.kind != crate::diff::LineKind::Context,
            _ => false,
        }
    }

    fn change_below(&self, from: usize, limit: usize) -> (r: usize)
        ensures
            r == self@.change_below(from as int, limit as int),
    {
        let mut i = from;
        while i < limit && !self.is_change_line(i)
            invariant
                self@.change_below(from as int, limit as int) == self@.change_below(
                    i as int,
                    limit as int,
                ),
            decreases limit - i,
        {
            i = i + 1;
        }
        i
    }

    fn change_above(&self, from: usize, limit: usize) -> (r: usize)
        ensures
            r == self@.change_above(from as int, limit as int),
    {
        let mut i = from;
        while i > limit && !self.is_change_line(i)
            invariant
                self@.change_above(from as int, limit as int) == self@.change_above(
                    i as int,
                    limit as int,
                ),
            decreases i,
        {
            i = i - 1;
        }
        i
    }

    fn chunk_start(&self, from: usize) -> (r: usize)
        ensures
            r == self@.chunk_start(from as int),
    {
        let mut i = from;
        while i > 0 && self.is_change_line(i - 1)
            invariant
                self@.chunk_start(from as int) == self@.chunk_start(i as int),
            decreases i,
        {
            i = i - 1;
        }
        i
    }

    fn next_chunk(&self) -> (r: Option<usize>)
        ensures
            opt_idx(r) == self@.next_chunk(),
    {
        let total = self.display_lines.len();
        let mut i = self.current_line_idx;
        while i < total && self.is_change_line(i)
            invariant
                total == self.display_lines@.len(),
                self@.chunk_end(self@.cursor) == self@.chunk_end(i as int),
            decreases total - i,
        {
            i = i + 1;
        }
        let below = self.change_below(i, total);
        if below < total {
            return Some(below);
        }
        let first = self.change_below(0, self.current_line_idx);
        if first < self.current_line_idx && self.is_change_line(first) {
            Some(first)
        } else {
            None
        }
    }

    fn prev_chunk(&self) -> (r: Option<usize>)
        ensures
            opt_idx(r) == self@.prev_chunk(),
    {
        let mut i = self.current_line_idx;
        if i > 0 && self.is_change_line(i) && !self.is_change_line(i - 1) {
            i = i - 1;
        }
        let ghost from = i as int;
        while i > 0 && self.is_change_line(i)
            invariant
                self@.out_of_chunk(from) == self@.out_of_chunk(i as int),
            decreases i,
        {
            i = i - 1;
        }
        let above = self.chunk_start(self.change_above(i, 0));
        if self.is_change_line(above) {
            return Some(above);
        }
        let last = self.chunk_start(
            self.change_above(last_index(self.display_lines.len()), self.current_line_idx),
        );
        if self.is_change_line(last) {
            Some(last)
        } else {
            None
        }
    }

    fn other_hunk_below(&self, from: usize, hunk: Option<usize>) -> (r: Option<usize>)
        ensures
            opt_idx(r) == self@.other_hunk_below(from as int, opt_idx(hunk)),
    {
        let mut i = from;
        while i < self.display_lines.len()
            invariant
                self@.other_hunk_below(from as int, opt_idx(hunk)) == self@.other_hunk_below(
                    i as int,
                    opt_idx(hunk),
                ),
            decreases self.display_lines@.len() - i,
        {
            if let Some(h) = self.hunk_idx_for_line(i) {
                let other = match hunk {
                    Some(g) => g != h,
                    None => true,
                };
                if other {
                    return Some(i);
                }
            }
            i = i + 1;
        }
        None
    }

    fn other_hunk_above(&self, from: usize, limit: usize, hunk: Option<usize>) -> (r: Option<usize>)
        ensures
            opt_idx(r) == self@.other_hunk_above(from as int, limit as int, opt_idx(hunk)),
    {
        let mut i = from;
        while i > limit
            invariant
                self@.other_hunk_above(from as int, limit as int, opt_idx(hunk))
                    == self@.other_hunk_above(i as int, limit as int, opt_idx(hunk)),
            decreases i,
        {
            i = i - 1;
            if let Some(h) = self.hunk_idx_for_line(i) {
                let other = match hunk {
                    Some(g) => g != h,
                    None => true,
                };
                if other {
                    return Some(i);
                }
            }
        }
        None
    }

    fn hunk_start(&self, from: usize) -> (r: usize)
        requires
            self@.hunk_of_line(from as int) is Some,
        ensures
            r == self@.hunk_start(from as int, self@.hunk_of_line(from as int)),
    {
        let hunk = self.hunk_idx_for_line(from);
        let mut i = from;
        while i > 0
            invariant_except_break
                self@.hunk_start(from as int, opt_idx(hunk)) == self@.hunk_start(
                    i as int,
                    opt_idx(hunk),
                ),
            invariant
                opt_idx(hunk) == self@.hunk_of_line(from as int),
                hunk is Some,
            ensures
                self@.hunk_start(from as int, opt_idx(hunk)) == i,
            decreases i,
        {
            let same = match (self.hunk_idx_for_line(i - 1), hunk) {
                (Some(a), Some(b)) => a == b,
                _ => false,
            };
            if !same {
                break ;
            }
            i = i - 1;
        }
        i
    }

    fn next_hunk_expanded(&self) -> (r: Option<usize>)
        ensures
            opt_idx(r) == self@.next_hunk(),
    {
        let hunk = self.hunk_idx_for_line(self.current_line_idx);
        if self.current_line_idx < self.display_lines.len() {
            if let Some(i) = self.other_hunk_below(self.current_line_idx + 1, hunk) {
                return Some(i);
            }
        }
        self.other_hunk_below(0, None)
    }

    fn prev_hunk_expanded(&self) -> (r: Option<usize>)
        ensures
            opt_idx(r) == self@.prev_hunk(),
    {
        let hunk = self.hunk_idx_for_line(self.current_line_idx);
        proof {
            lemma_other_hunk_above(self@, self@.cursor, 0, opt_idx(hunk));
            lemma_other_hunk_above(self@, self@.lines.len() as int, 1, None);
        }
        if let Some(i) = self.other_hunk_above(self.current_line_idx, 0, hunk) {
            return Some(self.hunk_start(i));
        }
        match self.other_hunk_above(self.display_lines.len(), 1, None) {
            Some(i) => Some(self.hunk_start(i)),
            None => None,
        }
    }

    /// Jumps to the next run of changes, or in an expanded file to the next
    /// hunk.
    pub fn next_change_chunk(&mut self, expanded: bool, files: usize)
        ensures
            final(self)@ == old(self)@.to_next_change(expanded, files as int),
            final(self)@.same_display(old(self)@),
    {
        let to = if expanded {
            self.next_hunk_expanded()
        } else {
            self.next_chunk()
        };
        if let Some(i) = to {
            self.jump_to_line(i, files);
        }
    }

    /// Jumps to the previous run of changes, or in an expanded file to the
    /// previous hunk.
    pub fn prev_change_chunk(&mut self, expanded: bool, files: usize)
        ensures
            final(self)@ == old(self)@.to_prev_change(expanded, files as int),
            final(self)@.same_display(old(self)@),
    {
        let to = if expanded {
            self.prev_hunk_expanded()
        } else {
            self.prev_chunk()
        };
        if let Some(i) = to {
            self.jump_to_line(i, files);
        }
    }

    /// Scrolls by some lines.
    pub fn scroll_by_lines(&mut self, delta: i32)
        ensures
            final(self)@ == old(self)@.scrolled_by(delta as int),
            final(self)@.same_display(old(self)@),
    {
        if self.display_lines.len() == 0 {
            return ;
        }
        let max = sub_usize(self.display_lines.len(), self.visible_height);
        let moved = if delta < 0 {
            sub_usize(self.scroll_offset, (-(delta as i64)) as usize)
        } else {
            crate::spans::capped_sum(self.scroll_offset, delta as usize)
        };
        self.scroll_offset = min_usize(moved, max);
        assert(self@ =~= old(self)@.scrolled_by(delta as int));
    }

    /// Scrolls so that the cursor is in the middle.
    pub fn center_on_current_line(&mut self)
        ensures
            final(self)@ == old(self)@.centered(),
            final(self)@.same_display(old(self)@),
    {
        reveal(ScreenV::centered);
        if self.visible_height == 0 {
            return ;
        }
        let half = self.visible_height / 2;
        self.scroll_offset = sub_usize(self.current_line_idx, half);
        assert(self@ =~= (ScreenV {
            scroll: minus(old(self)@.cursor, old(self)@.visible_height / 2),
            ..old(self)@
        }));
        self.clamp_scroll();
    }

    /// The selected lines: from the first to the last.
    pub fn selection_range(&self) -> (r: Option<(usize, usize)>)
        ensures
            match r {
                Some((a, b)) => self@.selection() == Some((a as int, b as int)),
                None => self@.selection() is None,
            },
    {
        if !self.selection_active {
            return None;
        }
        match self.selection_start {
            Some(start) => Some(
                (
                    min_usize(start, self.current_line_idx),
                    max_usize(start, self.current_line_idx),
                ),
            ),
            None => None,
        }
    }

    /// Drops the selection.
    pub fn clear_selection(&mut self)
        ensures
            final(self)@ == old(self)@.unselected(),
            final(self)@.same_display(old(self)@),
    {
        self.selection_active = false;
        self.selection_start = None;
        self.selection_file_idx = None;
        self.selection_hunk_idx = None;
        assert(self@ =~= old(self)@.unselected());
    }

    /// The text of the selected lines.
    pub fn selected_text_for_copy(&self) -> (r: Option<String>)
        ensures
            crate::text::opt_text(r) == self@.selected_text(),
    {
        let (a, b) = match self.selection_range() {
            Some(range) => range,
            None => {
                return None;
            },
        };
        let mut lines: Vec<String> = Vec::new();
        let mut i = a;
        assert(texts(lines@) =~= self@.diff_texts(a as int, a as int));
        while i < self.display_lines.len() && i <= b
            invariant
                a <= i,
                i <= b + 1,
                texts(lines@) == self@.diff_texts(a as int, i as int),
            decreases self.display_lines@.len() - i,
        {
            assert(self@.lines[i as int] == self.display_lines@[i as int]@);
            if let DisplayLine::Diff { line, .. } = &self.display_lines[i] {
                let ghost before = texts(lines@);
                lines.push(line.content.clone());
                assert(texts(lines@) =~= before.push(line.content@));
            }
            i = i + 1;
        }
        proof {
            lemma_diff_texts_beyond(self@, a as int, i as int, b + 1);
            assert(texts(lines@).len() == lines@.len());
        }
        if lines.len() == 0 {
            None
        } else {
            Some(join(&lines, "\n"))
        }
    }

    /// The least and the greatest new line number among selected lines.
    pub fn selected_new_lines(&self) -> (r: Option<(u32, u32)>)
        ensures
            r == (match self@.selection() {
                Some((a, b)) => self@.new_line_span(a, b + 1),
                None => None,
            }),
    {
        let (a, b) = match self.selection_range() {
            Some(range) => range,
            None => {
                return None;
            },
        };
        let mut span: Option<(u32, u32)> = None;
        let mut i = a;
        while i < self.display_lines.len() && i <= b
            invariant
                a <= i,
                i <= b + 1,
                span == self@.new_line_span(a as int, i as int),
            decreases self.display_lines@.len() - i,
        {
            assert(self@.lines[i as int] == self.display_lines@[i as int]@);
            if let DisplayLine::Diff { line, .. } = &self.display_lines[i] {
                if let Some(n) = line.new_line_no {
                    span = match span {
                        Some((lo, hi)) => Some(
                            (
                                if n < lo {
                                    n
                                } else {
                                    lo
                                },
                                if n > hi {
                                    n
                                } else {
                                    hi
                                },
                            ),
                        ),
                        None => Some((n, n)),
                    };
                }
            }
            i = i + 1;
        }
        proof {
            lemma_new_line_span_beyond(self@, a as int, i as int, b + 1);
        }
        span
    }

    /// The first line with a new line number.
    pub fn find_line(&self, line_no: u32) -> (r: Option<usize>)
        ensures
            opt_idx(r) == self@.line_numbered(0, line_no, false),
    {
        let mut i: usize = 0;
        while i < self.display_lines.len()
            invariant
                i <= self.display_lines@.len(),
                self@.line_numbered(0, line_no, false) == self@.line_numbered(
                    i as int,
                    line_no,
                    false,
                ),
            decreases self.display_lines@.len() - i,
        {
            assert(self@.lines[i as int] == self.display_lines@[i as int]@);
            if let DisplayLine::Diff { line, .. } = &self.display_lines[i] {
                if let Some(n) = line.new_line_no {
                    if n == line_no {
                        return Some(i);
                    }
                }
            }
            i = i + 1;
        }
        None
    }

    /// The first line with an old line number.
    pub fn find_old_line(&self, line_no: u32) -> (r: Option<usize>)
        ensures
            opt_idx(r) == self@.line_numbered(0, line_no, true),
    {
        let mut i: usize = 0;
        while i < self.display_lines.len()
            invariant
                i <= self.display_lines@.len(),
                self@.line_numbered(0, line_no, true) == self@.line_numbered(
                    i as int,
                    line_no,
                    true,
                ),
            decreases self.display_lines@.len() - i,
        {
            assert(self@.lines[i as int] == self.display_lines@[i as int]@);
            if let DisplayLine::Diff { line, .. } = &self.display_lines[i] {
                if let Some(n) = line.old_line_no {
                    if n == line_no {
                        return Some(i);
                    }
                }
            }
            i = i + 1;
        }
        None
    }

    /// The line of a file that is nearest to a line number.
    pub fn find_best_line_match(&self, file_path: &str, line_no: u32) -> (r: Option<usize>)
        ensures
            opt_idx(r) == self@.best_line(file_path@, line_no),
    {
        let mut best: Option<(usize, u32)> = None;
        let mut i: usize = 0;
        while i < self.display_lines.len()
            invariant
                i <= self.display_lines@.len(),
                match best {
                    Some((k, gap)) => self@.nearest(i as int, file_path@, line_no) == Some(
                        k as int,
                    ) && self@.number_in_file(k as int, file_path@) is Some && gap == line_gap(
                        self@.number_in_file(k as int, file_path@)->0,
                        line_no,
                    ),
                    None => self@.nearest(i as int, file_path@, line_no) is None,
                },
            decreases self.display_lines@.len() - i,
        {
            assert(self@.lines[i as int] == self.display_lines@[i as int]@);
            if let DisplayLine::Diff { line, file_path: path, .. } = &self.display_lines[i] {
                if str_eq(path.as_str(), file_path) {
                    let number = match line.new_line_no {
                        Some(n) => Some(n),
                        None => line.old_line_no,
                    };
                    if let Some(n) = number {
                        let gap = if n >= line_no {
                            n - line_no
                        } else {
                            line_no - n
                        };
                        let better = match best {
                            Some((_, best_gap)) => gap < best_gap,
                            None => true,
                        };
                        if better {
                            best = Some((i, gap));
                        }
                    }
                }
            }
            i = i + 1;
        }
        match best {
            Some((k, _)) => Some(k),
            None => None,
        }
    }

    /// The header of a file.
    pub fn find_file_header_idx(&self, file_idx: usize) -> (r: Option<usize>)
        ensures
            opt_idx(r) == self@.header_of_file(0, file_idx as int),
    {
        let mut i: usize = 0;
        while i < self.display_lines.len()
            invariant
                i <= self.display_lines@.len(),
                self@.header_of_file(0, file_idx as int) == self@.header_of_file(
                    i as int,
                    file_idx as int,
                ),
            decreases self.display_lines@.len() - i,
        {
            assert(self@.lines[i as int] == self.display_lines@[i as int]@);
            if let DisplayLine::FileHeader { file_idx: f, .. } = &self.display_lines[i] {
                if *f == file_idx {
                    return Some(i);
                }
            }
            i = i + 1;
        }
        None
    }

    /// The file and the hunk that the cursor is on.
    pub fn current_hunk_ref(&self) -> (r: Option<(usize, usize)>)
        ensures
            match r {
                Some((f, h)) => self@.current_hunk() == Some((f as int, h as int)),
                None => self@.current_hunk() is None,
            },
    {
        match self.current_display_line() {
            Some(line) => match line {
                DisplayLine::Diff { file_idx, hunk_idx: Some(h), .. } => Some((*file_idx, *h)),
                DisplayLine::HunkHeader { file_idx, hunk_idx, .. } => Some((*file_idx, *hunk_idx)),
                DisplayLine::HunkEnd { file_idx, hunk_idx } => Some((*file_idx, *hunk_idx)),
                _ => None,
            },
            None => None,
        }
    }

    /// The file and the line number to come back to after a reload.
    pub fn current_target_position(&self) -> (r: Option<(String, u32)>)
        ensures
            match r {
                Some((path, n)) => self@.target() == Some((path@, n)),
                None => self@.target() is None,
            },
    {
        if let Some(line) = self.current_display_line() {
            match line {
                DisplayLine::Diff { line, file_path, .. } => {
                    return match line.new_line_no {
                        Some(n) => Some((file_path.clone(), n)),
                        None => match line.old_line_no {
                            Some(n) => Some((file_path.clone(), n)),
                            None => None,
                        },
                    };
                },
                DisplayLine::Annotation { annotation, .. } => {
                    return Some((annotation.file_path.clone(), annotation.start_line));
                },
                _ => {},
            }
        }
        match self.current_file_info() {
            Some((path, _)) => Some((path, 1)),
            None => None,
        }
    }
}

proof fn lemma_other_hunk_above(s: ScreenV, i: int, limit: int, hunk: Option<int>)
    ensures
        s.other_hunk_above(i, limit, hunk) matches Some(k) ==> limit <= k < i && s.hunk_of_line(
            k,
        ) is Some,
    decreases i - limit,
{
    if i > limit {
        lemma_other_hunk_above(s, i - 1, limit, hunk);
    }
}

proof fn lemma_diff_texts_beyond(s: ScreenV, from: int, i: int, to: int)
    requires
        from <= i,
        i <= to,
        i >= s.lines.len() || i == to,
    ensures
        s.diff_texts(from, to) == s.diff_texts(from, i),
    decreases to - i,
{
    if to > i {
        lemma_diff_texts_beyond(s, from, i, to - 1);
    }
}

proof fn lemma_new_line_span_beyond(s: ScreenV, from: int, i: int, to: int)
    requires
        from <= i,
        i <= to,
        i >= s.lines.len() || i == to,
    ensures
        s.new_line_span(from, to) == s.new_line_span(from, i),
    decreases to - i,
{
    if to > i {
        lemma_new_line_span_beyond(s, from, i, to - 1);
    }
}

// ---------------------------------------------------------------------------
// Laws
// ---------------------------------------------------------------------------
/// Whether the cursor can stand on some line of the display.
pub open spec fn has_place(s: ScreenV) -> bool {
    exists|i: int| 0 <= i < s.lines.len() && !#[trigger] s.skippable(i)
}

/// The cursor comes to stand on a line that it can stand on, wherever there is
/// one.
pub proof fn law_cursor_lands(s: ScreenV)
    requires
        0 <= s.cursor < s.lines.len(),
        has_place(s),
    ensures
        0 <= s.landed().cursor < s.lines.len(),
        !s.landed().skippable(s.landed().cursor),
{
    reveal(ScreenV::landed);
    if s.skippable(s.cursor) {
        let n = s.lines.len() as int;
        lemma_skip_down(s, s.cursor, n);
        lemma_skip_up(s, s.cursor);
        let down = s.skip_down(s.cursor, n);
        let up = s.skip_up(s.cursor);
        let place = choose|i: int| 0 <= i < s.lines.len() && !#[trigger] s.skippable(i);
        if down >= n {
            assert(!(s.cursor <= place < down));
            assert(!(up < place <= s.cursor));
            if up == 0 {
                assert(place == 0);
            }
        }
        assert(forall|i: int| s.landed().skippable(i) == s.skippable(i));
    }
}

/// Landing moves nothing where the cursor already stands well.
pub proof fn law_landing_settles(s: ScreenV)
    requires
        0 <= s.cursor < s.lines.len(),
        has_place(s),
    ensures
        s.landed().landed() == s.landed(),
{
    reveal(ScreenV::landed);
    law_cursor_lands(s);
}

proof fn lemma_kept_in_selection(s: ScreenV, to: int)
    ensures
        s.kept_in_selection(to) == to || s.kept_in_selection(to) == s.cursor,
{
}

/// Moving up or down by a line keeps the cursor on the display, and on a line
/// that it can stand on.
pub proof fn law_moves_stay(s: ScreenV, files: int)
    requires
        0 <= s.cursor < s.lines.len(),
        has_place(s),
        !s.skippable(s.cursor),
    ensures
        0 <= s.up(files).cursor < s.lines.len(),
        !s.up(files).skippable(s.up(files).cursor),
        0 <= s.down(files).cursor < s.lines.len(),
        !s.down(files).skippable(s.down(files).cursor),
{
    reveal(ScreenV::up);
    reveal(ScreenV::down);
    let last = less_one(s.lines.len() as int);
    if s.cursor > 0 {
        lemma_skip_up(s, s.cursor - 1);
        let to = s.kept_in_selection(s.skip_up(s.cursor - 1));
        lemma_kept_in_selection(s, s.skip_up(s.cursor - 1));
        lemma_at_place(s, to);
        law_cursor_lands(s.at(to));
        lemma_landed_frame(s.at(to));
        lemma_adjusted_frame(s.at(to).landed(), files);
        lemma_skippable_same(s.at(to).landed(), s.up(files));
    }
    if s.cursor < last {
        lemma_skip_down(s, s.cursor + 1, last);
        let to = s.kept_in_selection(s.skip_down(s.cursor + 1, last));
        lemma_kept_in_selection(s, s.skip_down(s.cursor + 1, last));
        lemma_at_place(s, to);
        law_cursor_lands(s.at(to));
        lemma_landed_frame(s.at(to));
        lemma_adjusted_frame(s.at(to).landed(), files);
        lemma_skippable_same(s.at(to).landed(), s.down(files));
    }
}

proof fn lemma_skippable_same(a: ScreenV, b: ScreenV)
    requires
        a.lines == b.lines,
        a.collapsed == b.collapsed,
    ensures
        forall|i: int| a.skippable(i) == #[trigger] b.skippable(i),
{
}

proof fn lemma_at_place(s: ScreenV, to: int)
    requires
        has_place(s),
    ensures
        has_place(s.at(to)),
{
    let place = choose|i: int| 0 <= i < s.lines.len() && !#[trigger] s.skippable(i);
    assert(!s.at(to).skippable(place));
}

/// A jump to any line ends on a line that the cursor can stand on, wherever
/// there is one.
pub proof fn law_jump_lands(s: ScreenV, i: int, files: int)
    requires
        i >= 0,
        s.lines.len() > 0,
        has_place(s),
    ensures
        0 <= s.jumped(i, files).cursor < s.lines.len(),
        !s.jumped(i, files).skippable(s.jumped(i, files).cursor),
{
    reveal(ScreenV::jumped);
    let to = lesser(i, less_one(s.lines.len() as int));
    lemma_at_place(s, to);
    law_cursor_lands(s.at(to));
    lemma_landed_frame(s.at(to));
    lemma_adjusted_frame(s.at(to).landed(), files);
    lemma_skippable_same(s.at(to).landed(), s.jumped(i, files));
}

proof fn lemma_last_screen_rows(s: ScreenV, i: int, rows: int)
    requires
        0 <= i <= s.lines.len(),
        rows == s.lines.len() - i,
        forall|k: int| 0 <= k < s.lines.len() ==> #[trigger] s.height(k) == 1,
        s.lines.len() <= usize::MAX,
        s.visible_height > 0,
        rows <= s.visible_height,
    ensures
        s.last_screen(i, rows) == minus(s.lines.len() as int, s.visible_height),
    decreases i,
{
    if i > 0 && rows < s.visible_height {
        assert(s.height(i - 1) == 1);
        lemma_last_screen_rows(s, i - 1, rows + 1);
    }
}

proof fn lemma_rows_between_unit(s: ScreenV, i: int, end: int, rows: int, limit: int)
    requires
        0 <= i <= end <= s.lines.len(),
        0 <= rows,
        rows + (end - i) <= usize::MAX,
        forall|k: int| 0 <= k < s.lines.len() ==> #[trigger] s.height(k) == 1,
    ensures
        s.rows_between(i, end, rows, limit) == rows + (end - i) || (s.rows_between(
            i,
            end,
            rows,
            limit,
        ) > limit && rows + (end - i) > limit),
    decreases end - i,
{
    if i < end {
        assert(s.height(i) == 1);
        if rows + 1 <= limit {
            lemma_rows_between_unit(s, i + 1, end, rows + 1, limit);
        }
    }
}

proof fn lemma_offset_for_top_unit(s: ScreenV, i: int, rows: int, target: int)
    requires
        0 <= i <= s.lines.len(),
        0 <= rows <= target <= usize::MAX,
        forall|k: int| 0 <= k < s.lines.len() ==> #[trigger] s.height(k) == 1,
    ensures
        s.offset_for_top(i, rows, target) == minus(i, target - rows),
    decreases i,
{
    if i > 0 && rows < target {
        assert(s.height(i - 1) == 1);
        lemma_offset_for_top_unit(s, i - 1, rows + 1, target);
    }
}

proof fn lemma_offset_for_bottom_unit(s: ScreenV, i: int, rows: int, target: int)
    requires
        0 <= i <= s.lines.len(),
        0 <= rows <= target < usize::MAX,
        forall|k: int| 0 <= k < s.lines.len() ==> #[trigger] s.height(k) == 1,
    ensures
        s.offset_for_bottom(i, rows, target) == minus(i, target - rows),
    decreases i,
{
    if i > 0 {
        assert(s.height(i - 1) == 1);
        if rows + 1 <= target {
            lemma_offset_for_bottom_unit(s, i - 1, rows + 1, target);
        }
    }
}

/// Scrolling to the cursor brings it into view, where every line takes one row
/// and the screen has more rows than the margin.
pub proof fn law_cursor_in_view(s: ScreenV, files: int)
    requires
        0 <= s.cursor < s.lines.len() <= usize::MAX,
        s.scroll >= 0,
        SCROLL_MARGIN < s.visible_height <= usize::MAX,
        forall|k: int| 0 <= k < s.lines.len() ==> #[trigger] s.height(k) == 1,
    ensures
        s.adjusted(files).scroll <= s.cursor < s.adjusted(files).scroll + s.visible_height,
{
    reveal(ScreenV::adjusted);
    let margin = SCROLL_MARGIN as int;
    assert(s.height(s.cursor) == 1);
    let top = lesser(s.scroll, s.cursor);
    let bottom_limit = minus(s.visible_height, margin + 1);
    let limit = lesser(s.visible_height + margin + 1, usize::MAX as int);
    lemma_rows_between_unit(s, top, s.cursor, 0, limit);
    lemma_offset_for_top_unit(s, s.cursor, 0, margin);
    lemma_offset_for_bottom_unit(s, s.cursor, 0, bottom_limit);
    let t = ScreenV { scroll: s.scroll_for_cursor(), ..s };
    assert forall|k: int| 0 <= k < t.lines.len() implies #[trigger] t.height(k) == 1 by {
        assert(t.height(k) == s.height(k));
    }
    lemma_last_screen_rows(t, t.lines.len() as int, 0);
}

proof fn lemma_nearest(s: ScreenV, n: int, path: Seq<char>, no: u32)
    requires
        0 <= n <= s.lines.len(),
    ensures
        match s.nearest(n, path, no) {
            Some(k) => {
                &&& 0 <= k < n
                &&& s.number_in_file(k, path) is Some
                &&& forall|j: int|
                    0 <= j < n && (#[trigger] s.number_in_file(j, path)) is Some ==> line_gap(
                        s.number_in_file(k, path)->0,
                        no,
                    ) <= line_gap(s.number_in_file(j, path)->0, no)
            },
            None => forall|j: int|
                0 <= j < n ==> (#[trigger] s.number_in_file(j, path)) is None,
        },
    decreases n,
{
    if n > 0 {
        lemma_nearest(s, n - 1, path, no);
    }
}

/// A reload comes back to a line of the same file, and to none that is further
/// from the line number than another; only a file that is gone has none.
pub proof fn law_best_line(s: ScreenV, path: Seq<char>, no: u32)
    ensures
        match s.best_line(path, no) {
            Some(k) => {
                &&& 0 <= k < s.lines.len()
                &&& s.number_in_file(k, path) is Some
                &&& forall|j: int|
                    0 <= j < s.lines.len() && (#[trigger] s.number_in_file(j, path)) is Some
                        ==> line_gap(s.number_in_file(k, path)->0, no) <= line_gap(
                        s.number_in_file(j, path)->0,
                        no,
                    )
            },
            None => forall|j: int|
                0 <= j < s.lines.len() ==> (#[trigger] s.number_in_file(j, path)) is None,
        },
{
    lemma_nearest(s, s.lines.len() as int, path, no);
}

/// A jump by runs of changes goes to a change, and backwards to the first of
/// its run.
pub proof fn law_next_chunk_is_change(s: ScreenV)
    requires
        0 <= s.cursor,
    ensures
        s.next_chunk() matches Some(i) ==> s.change_at(i),
        s.prev_chunk() matches Some(i) ==> s.change_at(i) && (i == 0 || !s.change_at(i - 1)),
{
    let total = s.lines.len() as int;
    lemma_chunk_end(s, s.cursor);
    if s.chunk_end(s.cursor) <= total {
        lemma_change_below(s, s.chunk_end(s.cursor), total);
    }
    let from = if s.cursor > 0 && s.change_at(s.cursor) && !s.change_at(s.cursor - 1) {
        s.cursor - 1
    } else {
        s.cursor
    };
    lemma_chunk_start(s, s.change_above(s.out_of_chunk(from), 0));
    lemma_chunk_start(s, s.change_above(less_one(total), s.cursor));
}

proof fn lemma_chunk_end(s: ScreenV, i: int)
    ensures
        i <= s.chunk_end(i),
        !s.change_at(s.chunk_end(i)),
    decreases s.lines.len() - i,
{
    if s.change_at(i) {
        lemma_chunk_end(s, i + 1);
    }
}

proof fn lemma_change_below(s: ScreenV, i: int, limit: int)
    requires
        i <= limit,
    ensures
        i <= s.change_below(i, limit) <= limit,
        s.change_below(i, limit) < limit ==> s.change_at(s.change_below(i, limit)),
    decreases limit - i,
{
    if i < limit && !s.change_at(i) {
        lemma_change_below(s, i + 1, limit);
    }
}

proof fn lemma_chunk_start(s: ScreenV, i: int)
    ensures
        s.chunk_start(i) <= 0 || !s.change_at(s.chunk_start(i) - 1),
    decreases i,
{
    if i > 0 && s.change_at(i - 1) {
        lemma_chunk_start(s, i - 1);
    }
}

// ---------------------------------------------------------------------------
// Where moves lead
// ---------------------------------------------------------------------------
/// Whether the cursor can stand on a line: on lines of files, and on the headers of
/// collapsed files.
pub open spec fn can_stand(s: ScreenV, i: int) -> bool {
    0 <= i < s.lines.len() && match s.lines[i] {
        DisplayLineV::Diff { .. } => true,
        DisplayLineV::FileHeader { path, .. } => s.collapsed.contains(path),
        _ => false,
    }
}

/// One line down is the next line that the cursor can stand on; where there is none
/// below, the cursor stays.
pub proof fn law_down_is_next(s: ScreenV, files: int)
    requires
        can_stand(s, s.cursor),
        !s.selection_active,
    ensures
        ({
            let c = s.down(files).cursor;
            &&& s.down(files).lines == s.lines
            &&& s.down(files).collapsed == s.collapsed
            &&& s.down(files).selection_active == s.selection_active
            &&& if exists|i: int| s.cursor < i && #[trigger] can_stand(s, i) {
                &&& s.cursor < c
                &&& can_stand(s, c)
                &&& forall|i: int| s.cursor < i < c ==> !#[trigger] can_stand(s, i)
            } else {
                c == s.cursor
            }
        }),
{
    reveal(ScreenV::down);
    reveal(ScreenV::landed);
    let n = s.lines.len() as int;
    let last = less_one(n);
    assert forall|i: int| 0 <= i < n implies s.skippable(i) == !#[trigger] can_stand(s, i) by {}
    if s.cursor < last {
        lemma_skip_down(s, s.cursor + 1, last);
        let to = s.skip_down(s.cursor + 1, last);
        let t = s.at(to);
        lemma_skippable_same(s, t);
        lemma_landed_frame(t);
        lemma_adjusted_frame(t.landed(), files);
        if can_stand(s, to) {
            assert(!t.skippable(to));
        } else {
            assert(to == last);
            assert forall|i: int| s.cursor < i implies !#[trigger] can_stand(s, i) by {
                if i < n {
                    assert(s.skippable(i));
                }
            }
            lemma_skip_down(t, to, n);
            lemma_skip_up(t, to);
            let up = t.skip_up(to);
            assert(!s.skippable(s.cursor));
            if up > s.cursor {
                assert(can_stand(s, up));
            } else if up < s.cursor {
                assert(t.skippable(s.cursor));
            }
        }
    } else {
        assert forall|i: int| s.cursor < i implies !#[trigger] can_stand(s, i) by {}
    }
}

/// One line up is the line before it that the cursor can stand on; where there is
/// none above, the cursor stays.
pub proof fn law_up_is_previous(s: ScreenV, files: int)
    requires
        can_stand(s, s.cursor),
        !s.selection_active,
    ensures
        ({
            let c = s.up(files).cursor;
            &&& s.up(files).lines == s.lines
            &&& s.up(files).collapsed == s.collapsed
            &&& s.up(files).selection_active == s.selection_active
            &&& if exists|i: int| i < s.cursor && #[trigger] can_stand(s, i) {
                &&& c < s.cursor
                &&& can_stand(s, c)
                &&& forall|i: int| c < i < s.cursor ==> !#[trigger] can_stand(s, i)
            } else {
                c == s.cursor
            }
        }),
{
    reveal(ScreenV::up);
    reveal(ScreenV::landed);
    let n = s.lines.len() as int;
    assert forall|i: int| 0 <= i < n implies s.skippable(i) == !#[trigger] can_stand(s, i) by {}
    if s.cursor > 0 {
        lemma_skip_up(s, s.cursor - 1);
        let to = s.skip_up(s.cursor - 1);
        let t = s.at(to);
        lemma_skippable_same(s, t);
        lemma_landed_frame(t);
        lemma_adjusted_frame(t.landed(), files);
        if can_stand(s, to) {
            assert(!t.skippable(to));
        } else {
            assert(to == 0);
            assert forall|i: int| i < s.cursor implies !#[trigger] can_stand(s, i) by {
                if i >= 0 {
                    assert(s.skippable(i));
                }
            }
            lemma_skip_down(t, to, n);
            let down = t.skip_down(to, n);
            assert(!s.skippable(s.cursor));
            if down < s.cursor {
                assert(can_stand(s, down));
            } else if down > s.cursor {
                assert(t.skippable(s.cursor));
            }
        }
    } else {
        assert forall|i: int| i < s.cursor implies !#[trigger] can_stand(s, i) by {}
    }
}

/// One line down and one up leads back, unless the cursor was on the last line; one
/// up and one down, unless it was on the first.
pub proof fn law_down_and_up(s: ScreenV, files: int)
    requires
        can_stand(s, s.cursor),
        !s.selection_active,
    ensures
        s.down(files).cursor != s.cursor ==> s.down(files).up(files).cursor == s.cursor,
        s.up(files).cursor != s.cursor ==> s.up(files).down(files).cursor == s.cursor,
{
    law_down_is_next(s, files);
    law_up_is_previous(s, files);
    let d = s.down(files);
    let u = s.up(files);
    assert forall|i: int| can_stand(d, i) == #[trigger] can_stand(s, i) by {}
    assert forall|i: int| can_stand(u, i) == #[trigger] can_stand(s, i) by {}
    if d.cursor != s.cursor {
        assert(can_stand(d, d.cursor));
        law_up_is_previous(d, files);
        assert(can_stand(d, s.cursor));
        let c = d.up(files).cursor;
        assert(can_stand(d, c));
        assert(can_stand(s, c));
    }
    if u.cursor != s.cursor {
        assert(can_stand(u, u.cursor));
        law_down_is_next(u, files);
        assert(can_stand(u, s.cursor));
        let c = u.down(files).cursor;
        assert(can_stand(u, c));
        assert(can_stand(s, c));
    }
}

/// A move while lines are selected stays in the hunk where the selection began: it
/// leads to a line of that hunk, or nowhere.
pub proof fn law_selection_in_hunk(s: ScreenV, files: int)
    requires
        can_stand(s, s.cursor),
        s.selection_active,
        s.lines[s.cursor] matches DisplayLineV::Diff { hunk_idx, .. } && hunk_idx == s.selection_hunk,
        s.selection_hunk is Some,
    ensures
        s.lines[s.down(files).cursor] matches DisplayLineV::Diff { hunk_idx, .. } && hunk_idx
            == s.selection_hunk,
        s.lines[s.up(files).cursor] matches DisplayLineV::Diff { hunk_idx, .. } && hunk_idx
            == s.selection_hunk,
        s.down(files).selection_start == s.selection_start,
        s.up(files).selection_start == s.selection_start,
        s.down(files).cursor >= s.cursor,
        s.up(files).cursor <= s.cursor,
{
    reveal(ScreenV::up);
    reveal(ScreenV::down);
    reveal(ScreenV::landed);
    let last = less_one(s.lines.len() as int);
    if s.cursor > 0 {
        lemma_skip_up(s, s.cursor - 1);
        let to = s.kept_in_selection(s.skip_up(s.cursor - 1));
        lemma_landed_frame(s.at(to));
        lemma_adjusted_frame(s.at(to).landed(), files);
    }
    if s.cursor < last {
        lemma_skip_down(s, s.cursor + 1, last);
        let to = s.kept_in_selection(s.skip_down(s.cursor + 1, last));
        lemma_landed_frame(s.at(to));
        lemma_adjusted_frame(s.at(to).landed(), files);
    }
}

/// The start and the end of the display are the first and the last line that the
/// cursor can stand on.
pub proof fn law_ends(s: ScreenV, files: int)
    requires
        exists|i: int| can_stand(s, i),
    ensures
        can_stand(s, s.to_start().cursor),
        forall|i: int| #[trigger] can_stand(s, i) ==> s.to_start().cursor <= i,
        s.to_start().scroll == 0,
        can_stand(s, s.to_end(files).cursor),
        forall|i: int| #[trigger] can_stand(s, i) ==> i <= s.to_end(files).cursor,
{
    let n = s.lines.len() as int;
    let last = less_one(n);
    let some = choose|i: int| can_stand(s, i);
    assert forall|i: int| 0 <= i < n implies s.skippable(i) == !#[trigger] can_stand(s, i) by {}
    lemma_skip_down(s, 0, last);
    lemma_skip_up(s, last);
    lemma_adjusted_frame(s.at(s.skip_up(last)), files);
    assert(can_stand(s, some));
    let c = s.skip_down(0, last);
    if c < last {
        assert(!s.skippable(c));
    } else {
        if some < c {
            assert(s.skippable(some));
        }
    }
    let d = s.skip_up(last);
    if d > 0 {
        assert(!s.skippable(d));
    } else if some > d {
        assert(s.skippable(some));
    }
}

proof fn lemma_header_below(s: ScreenV, i: int)
    requires
        i >= 0,
    ensures
        match s.header_below(i) {
            Some(h) => i <= h < s.lines.len() && s.lines[h] is FileHeader && forall|k: int|
                i <= k < h ==> !((#[trigger] s.lines[k]) is FileHeader),
            None => forall|k: int|
                i <= k < s.lines.len() ==> !((#[trigger] s.lines[k]) is FileHeader),
        },
    decreases s.lines.len() - i,
{
    if i < s.lines.len() && !is_header(s.lines[i]) {
        lemma_header_below(s, i + 1);
    }
}

/// A jump to a line leads to the first line from there on that the cursor can stand
/// on, where there is one.
pub proof fn law_moved_to(s: ScreenV, i: int, files: int)
    requires
        0 <= i < s.lines.len(),
        exists|k: int| i <= k && can_stand(s, k),
    ensures
        i <= s.moved_to(i, files).cursor,
        can_stand(s, s.moved_to(i, files).cursor),
        forall|k: int| i <= k < s.moved_to(i, files).cursor ==> !#[trigger] can_stand(s, k),
        s.moved_to(i, files).lines == s.lines,
{
    reveal(ScreenV::moved_to);
    reveal(ScreenV::landed);
    let n = s.lines.len() as int;
    let t = s.at(i);
    assert forall|k: int| 0 <= k < n implies s.skippable(k) == !#[trigger] can_stand(s, k) by {}
    lemma_skippable_same(s, t);
    lemma_skip_down(t, i, n);
    lemma_landed_frame(t);
    lemma_adjusted_frame(t.landed(), files);
    let some = choose|k: int| i <= k && can_stand(s, k);
    assert(can_stand(s, some));
    let down = t.skip_down(i, n);
    if down <= some {
        assert(down < n);
    } else {
        assert(t.skippable(some));
    }
    assert forall|k: int| i <= k < down implies !#[trigger] can_stand(s, k) by {
        assert(t.skippable(k));
    }
}

/// The next file is the one whose header is the first below the cursor, and the
/// cursor comes to stand on its first line that it can stand on. Behind the last
/// file it stays.
pub proof fn law_next_file(s: ScreenV, files: int, h: int)
    requires
        0 <= s.cursor < h < s.lines.len(),
        s.lines[h] is FileHeader,
        forall|k: int| s.cursor < k < h ==> !((#[trigger] s.lines[k]) is FileHeader),
        exists|k: int| h <= k && can_stand(s, k),
    ensures
        h <= s.to_next_file(files).cursor,
        can_stand(s, s.to_next_file(files).cursor),
        forall|k: int| h <= k < s.to_next_file(files).cursor ==> !#[trigger] can_stand(s, k),
{
    lemma_header_below(s, s.cursor + 1);
    assert(s.header_below(s.cursor + 1) is Some) by {
        assert(s.lines[h] is FileHeader);
    }
    assert(s.header_below(s.cursor + 1) == Some(h));
    law_moved_to(s, h, files);
}

/// The previous file is the one whose header is the last above the header of the
/// cursor's file.
pub proof fn law_prev_file(s: ScreenV, files: int, h: int, g: int)
    requires
        0 <= h < g <= s.cursor < s.lines.len(),
        s.lines[h] is FileHeader,
        s.lines[g] is FileHeader,
        forall|k: int|
            h < k <= s.cursor && k != g ==> !((#[trigger] s.lines[k]) is FileHeader),
        exists|k: int| h <= k && can_stand(s, k),
    ensures
        h <= s.to_prev_file(files).cursor,
        can_stand(s, s.to_prev_file(files).cursor),
        forall|k: int| h <= k < s.to_prev_file(files).cursor ==> !#[trigger] can_stand(s, k),
{
    crate::screen::lemma_header_above(s, s.cursor);
    crate::screen::lemma_header_above(s, g - 1);
    assert(is_header(s.lines[g]));
    assert(is_header(s.lines[h]));
    assert(s.header_above(s.cursor) == Some(g));
    assert(s.header_above(g - 1) == Some(h));
    law_moved_to(s, h, files);
}

/// Whether a run of changes begins at a line.
pub open spec fn run_begins(s: ScreenV, i: int) -> bool {
    &&& 0 <= i < s.lines.len()
    &&& s.lines[i] matches DisplayLineV::Diff { line, .. } && line.kind
        != crate::diff::LineKind::Context
    &&& i == 0 || !(s.lines[i - 1] matches DisplayLineV::Diff { line, .. } && line.kind
        != crate::diff::LineKind::Context)
}

proof fn lemma_chunk_end_all(s: ScreenV, i: int)
    ensures
        forall|k: int| i <= k < s.chunk_end(i) ==> #[trigger] s.change_at(k),
    decreases s.lines.len() - i,
{
    if s.change_at(i) {
        lemma_chunk_end_all(s, i + 1);
    }
}

proof fn lemma_change_below_all(s: ScreenV, i: int, limit: int)
    ensures
        forall|k: int| i <= k < s.change_below(i, limit) ==> !#[trigger] s.change_at(k),
    decreases limit - i,
{
    if i < limit && !s.change_at(i) {
        lemma_change_below_all(s, i + 1, limit);
    }
}

/// The next run of changes is the one that begins first below the cursor; where
/// none begins below, the first of all that begins above the cursor.
pub proof fn law_next_run(s: ScreenV)
    requires
        0 <= s.cursor < s.lines.len(),
    ensures
        if exists|j: int| s.cursor < j && #[trigger] run_begins(s, j) {
            s.next_chunk() matches Some(i) && s.cursor < i && run_begins(s, i) && forall|j: int|
                s.cursor < j < i ==> !#[trigger] run_begins(s, j)
        } else if exists|j: int| j < s.cursor && #[trigger] run_begins(s, j) {
            s.next_chunk() matches Some(i) && i < s.cursor && run_begins(s, i) && forall|j: int|
                j < i ==> !#[trigger] run_begins(s, j)
        } else {
            s.next_chunk() is None
        },
{
    let total = s.lines.len() as int;
    let end = s.chunk_end(s.cursor);
    lemma_chunk_end(s, s.cursor);
    lemma_chunk_end_all(s, s.cursor);
    assert forall|j: int| #[trigger] run_begins(s, j) <==> s.change_at(j) && (j == 0
        || !s.change_at(j - 1)) by {}
    if end > total {
        assert(s.change_at(total));
    }
    lemma_change_below(s, end, total);
    lemma_change_below_all(s, end, total);
    let below = s.change_below(end, total);
    assert forall|j: int| s.cursor < j < below implies !#[trigger] run_begins(s, j) by {
        if j < end {
            assert(s.change_at(j - 1));
        } else {
            assert(!s.change_at(j));
        }
    }
    if below < total {
        assert(below > s.cursor);
        assert(!s.change_at(below - 1)) by {
            if below > end {
                assert(!s.change_at(below - 1));
            }
        }
        assert(run_begins(s, below));
    } else {
        assert forall|j: int| s.cursor < j implies !#[trigger] run_begins(s, j) by {}
        lemma_change_below(s, 0, s.cursor);
        lemma_change_below_all(s, 0, s.cursor);
        let first = s.change_below(0, s.cursor);
        assert forall|j: int| j < first implies !#[trigger] run_begins(s, j) by {
            if j >= 0 {
                assert(!s.change_at(j));
            }
        }
        if first < s.cursor {
            assert(first > 0 ==> !s.change_at(first - 1));
            assert(run_begins(s, first));
        }
    }
}

/// In an expanded file, the next hunk is at the first line below the cursor that
/// belongs to a hunk other than the cursor's; where there is none below, at the
/// first line of all that belongs to a hunk.
pub proof fn law_next_hunk(s: ScreenV)
    requires
        0 <= s.cursor < s.lines.len(),
    ensures
        match s.next_hunk() {
            Some(i) => {
                &&& 0 <= i < s.lines.len()
                &&& s.hunk_of_line(i) is Some
                &&& i > s.cursor ==> (s.hunk_of_line(i) != s.hunk_of_line(s.cursor) && forall|
                    k: int,
                |
                    s.cursor < k < i && (#[trigger] s.hunk_of_line(k)) is Some ==> s.hunk_of_line(k)
                        == s.hunk_of_line(s.cursor)) || forall|k: int|
                    0 <= k < i ==> (#[trigger] s.hunk_of_line(k)) is None
                &&& i <= s.cursor ==> forall|k: int|
                    s.cursor < k < s.lines.len() && (#[trigger] s.hunk_of_line(k)) is Some
                        ==> s.hunk_of_line(k) == s.hunk_of_line(s.cursor)
            },
            None => forall|k: int|
                0 <= k < s.lines.len() ==> (#[trigger] s.hunk_of_line(k)) is None,
        },
{
    lemma_other_hunk_below(s, s.cursor + 1, s.hunk_of_line(s.cursor));
    lemma_other_hunk_below(s, 0, None);
}

proof fn lemma_other_hunk_below(s: ScreenV, i: int, hunk: Option<int>)
    requires
        i >= 0,
    ensures
        match s.other_hunk_below(i, hunk) {
            Some(j) => {
                &&& i <= j < s.lines.len()
                &&& s.hunk_of_line(j) is Some
                &&& s.hunk_of_line(j) != hunk
                &&& forall|k: int|
                    i <= k < j && (#[trigger] s.hunk_of_line(k)) is Some ==> s.hunk_of_line(k)
                        == hunk
            },
            None => forall|k: int|
                i <= k < s.lines.len() && (#[trigger] s.hunk_of_line(k)) is Some ==> s.hunk_of_line(
                    k,
                ) == hunk,
        },
    decreases s.lines.len() - i,
{
    if i < s.lines.len() && !(s.hunk_of_line(i) is Some && s.hunk_of_line(i) != hunk) {
        lemma_other_hunk_below(s, i + 1, hunk);
    }
}

proof fn lemma_line_numbered(s: ScreenV, i: int, no: u32, old_side: bool)
    requires
        i >= 0,
    ensures
        match s.line_numbered(i, no, old_side) {
            Some(j) => {
                &&& i <= j < s.lines.len()
                &&& s.lines[j] is Diff
                &&& (if old_side {
                    s.lines[j]->Diff_line.old_line_no
                } else {
                    s.lines[j]->Diff_line.new_line_no
                }) == Some(no)
            },
            None => forall|k: int|
                i <= k < s.lines.len() && (#[trigger] s.lines[k]) is Diff ==> (if old_side {
                    s.lines[k]->Diff_line.old_line_no
                } else {
                    s.lines[k]->Diff_line.new_line_no
                }) != Some(no),
        },
    decreases s.lines.len() - i,
{
    if i < s.lines.len() {
        lemma_line_numbered(s, i + 1, no, old_side);
    }
}

/// Looking for a line by its number finds a line with that number on the side that
/// was asked for, exactly if there is one, and the cursor can be brought there.
pub proof fn law_line_by_number(s: ScreenV, no: u32, old_side: bool, files: int)
    ensures
        match s.line_numbered(0, no, old_side) {
            Some(j) => {
                &&& 0 <= j < s.lines.len()
                &&& s.lines[j] matches DisplayLineV::Diff { line, .. } && (if old_side {
                    line.old_line_no
                } else {
                    line.new_line_no
                }) == Some(no)
                &&& s.moved_to(j, files).cursor == j
            },
            None => forall|k: int|
                0 <= k < s.lines.len() && (#[trigger] s.lines[k]) is Diff ==> (if old_side {
                    s.lines[k]->Diff_line.old_line_no
                } else {
                    s.lines[k]->Diff_line.new_line_no
                }) != Some(no),
        },
{
    lemma_line_numbered(s, 0, no, old_side);
    if let Some(j) = s.line_numbered(0, no, old_side) {
        assert(can_stand(s, j));
        law_moved_to(s, j, files);
    }
}

proof fn lemma_out_of_chunk(s: ScreenV, i: int)
    requires
        i >= 0,
    ensures
        0 <= s.out_of_chunk(i) <= i,
        s.out_of_chunk(i) > 0 ==> !s.change_at(s.out_of_chunk(i)),
        forall|k: int| s.out_of_chunk(i) < k <= i ==> #[trigger] s.change_at(k),
    decreases i,
{
    if i > 0 && s.change_at(i) {
        lemma_out_of_chunk(s, i - 1);
    }
}

proof fn lemma_change_above(s: ScreenV, i: int, limit: int)
    requires
        i >= limit,
    ensures
        limit <= s.change_above(i, limit) <= i,
        s.change_above(i, limit) > limit ==> s.change_at(s.change_above(i, limit)),
        forall|k: int| s.change_above(i, limit) < k <= i ==> !#[trigger] s.change_at(k),
    decreases i - limit,
{
    if i > limit && !s.change_at(i) {
        lemma_change_above(s, i - 1, limit);
    }
}

proof fn lemma_chunk_start_all(s: ScreenV, i: int)
    requires
        i >= 0,
    ensures
        0 <= s.chunk_start(i) <= i,
        forall|k: int| s.chunk_start(i) <= k < i ==> #[trigger] s.change_at(k),
    decreases i,
{
    if i > 0 && s.change_at(i - 1) {
        lemma_chunk_start_all(s, i - 1);
    }
}

/// The previous run of changes is the one that begins last above the cursor, not
/// counting the run that the cursor is in; where there is no run above, the last of
/// all.
pub proof fn law_prev_run(s: ScreenV)
    requires
        0 <= s.cursor < s.lines.len(),
    ensures
        match s.prev_chunk() {
            Some(i) => {
                &&& run_begins(s, i)
                &&& i < s.cursor ==> forall|j: int, k: int|
                    i < j <= k <= s.cursor && #[trigger] run_begins(s, j) && !#[trigger] s.change_at(k)
                        ==> false
                &&& i > s.cursor ==> (forall|j: int, k: int|
                    0 <= j <= k <= s.cursor && #[trigger] run_begins(s, j) && !#[trigger] s.change_at(k)
                        ==> false) && forall|j: int| i < j ==> !#[trigger] run_begins(s, j)
                &&& i == s.cursor ==> forall|j: int| j < i ==> !#[trigger] run_begins(s, j)
            },
            None => forall|j: int| !#[trigger] run_begins(s, j),
        },
{
    let total = s.lines.len() as int;
    assert forall|j: int| #[trigger] run_begins(s, j) <==> s.change_at(j) && (j == 0
        || !s.change_at(j - 1)) by {}
    let from = if s.cursor > 0 && s.change_at(s.cursor) && !s.change_at(s.cursor - 1) {
        s.cursor - 1
    } else {
        s.cursor
    };
    let out = s.out_of_chunk(from);
    lemma_out_of_chunk(s, from);
    let seen = s.change_above(out, 0);
    lemma_change_above(s, out, 0);
    let above = s.chunk_start(seen);
    lemma_chunk_start(s, seen);
    lemma_chunk_start_all(s, seen);
    if s.change_at(above) {
        assert(run_begins(s, above));
        assert forall|j: int, k: int|
            above < j <= k <= s.cursor && #[trigger] run_begins(s, j)
                && !#[trigger] s.change_at(k) implies false by {
            assert(!s.change_at(j - 1));
            assert(s.change_at(j));
            if j <= seen {
                assert(s.change_at(j - 1));
            } else if j <= out {
                assert(!s.change_at(j));
            } else if j <= from {
                if j - 1 > out {
                    assert(s.change_at(j - 1));
                }
                if k <= from {
                    assert(s.change_at(k));
                }
            }
        }
    } else {
        assert(!s.change_at(seen)) by {
            if s.change_at(seen) && above < seen {
                assert(s.change_at(above));
            }
        }
        assert(seen == 0);
        assert forall|j: int| 0 <= j <= out implies !#[trigger] s.change_at(j) by {}
        assert forall|j: int, k: int|
            0 <= j <= k <= s.cursor && #[trigger] run_begins(s, j)
                && !#[trigger] s.change_at(k) implies false by {
            assert(s.change_at(j));
            assert(j > out);
            if k <= from {
                assert(s.change_at(k));
            }
        }
        let w = s.change_above(less_one(total), s.cursor);
        lemma_change_above(s, less_one(total), s.cursor);
        let last = s.chunk_start(w);
        lemma_chunk_start(s, w);
        lemma_chunk_start_all(s, w);
        assert forall|j: int| w < j implies !#[trigger] run_begins(s, j) by {
            if j < total {
                assert(!s.change_at(j));
            }
        }
        if s.change_at(last) {
            assert(run_begins(s, last));
            assert forall|j: int| last < j implies !#[trigger] run_begins(s, j) by {
                if j <= w {
                    assert(s.change_at(j - 1));
                }
            }
            assert forall|j: int| j < last && last == s.cursor implies !#[trigger] run_begins(
                s,
                j,
            ) by {
                if run_begins(s, j) {
                    assert(!s.change_at(last - 1));
                    assert(j <= last - 1);
                }
            }
        } else {
            assert(!s.change_at(w)) by {
                if s.change_at(w) && last < w {
                    assert(s.change_at(last));
                }
            }
            assert(w == s.cursor);
            assert forall|j: int| !#[trigger] run_begins(s, j) by {
                if run_begins(s, j) {
                    assert(!s.change_at(s.cursor));
                    assert(j <= s.cursor);
                }
            }
        }
    }
}

proof fn lemma_stepped(s: ScreenV, n: int)
    requires
        0 <= s.cursor < s.lines.len(),
    ensures
        s.stepped_down(n) == s.at(s.stepped_down(n).cursor),
        s.cursor <= s.stepped_down(n).cursor < s.lines.len(),
        s.stepped_up(n) == s.at(s.stepped_up(n).cursor),
        0 <= s.stepped_up(n).cursor <= s.cursor,
    decreases n,
{
    if n > 0 {
        lemma_stepped(s, n - 1);
        let d = s.stepped_down(n - 1);
        let u = s.stepped_up(n - 1);
        let last = less_one(s.lines.len() as int);
        if d.cursor < last {
            lemma_skip_down(d, d.cursor + 1, last);
        }
        if u.cursor > 0 {
            lemma_skip_up(u, u.cursor - 1);
        }
    }
}

/// Half a page down leads down and half a page up leads up, to lines that the cursor
/// can stand on; the display stays as it is.
pub proof fn law_pages(s: ScreenV, files: int)
    requires
        can_stand(s, s.cursor),
        !s.selection_active,
    ensures
        s.cursor <= s.paged_down(files).cursor,
        can_stand(s, s.paged_down(files).cursor),
        s.paged_up(files).cursor <= s.cursor,
        can_stand(s, s.paged_up(files).cursor),
        s.paged_down(files).lines == s.lines,
        s.paged_up(files).lines == s.lines,
{
    reveal(ScreenV::landed);
    let n = s.lines.len() as int;
    let half = s.visible_height / 2;
    assert forall|i: int| 0 <= i < n implies s.skippable(i) == !#[trigger] can_stand(s, i) by {}
    lemma_stepped(s, half);
    let d = s.stepped_down(half);
    let u = s.stepped_up(half);
    lemma_skippable_same(s, d);
    lemma_skippable_same(s, u);
    lemma_landed_frame(d);
    lemma_landed_frame(u);
    lemma_adjusted_frame(d.landed(), files);
    lemma_adjusted_frame(u.landed(), files);
    lemma_skip_down(d, d.cursor, n);
    lemma_skip_up(d, d.cursor);
    lemma_skip_down(u, u.cursor, n);
    lemma_skip_up(u, u.cursor);
    assert(!s.skippable(s.cursor));
    assert(!d.skippable(s.cursor));
    assert(!u.skippable(s.cursor));
    assert(can_stand(s, d.landed().cursor)) by {
        assert(!d.skippable(d.landed().cursor)) by {
            if d.skippable(d.cursor) && d.skip_down(d.cursor, n) >= n {
                let up = d.skip_up(d.cursor);
                if up < s.cursor {
                    assert(d.skippable(s.cursor));
                }
            }
        }
    }
    assert(can_stand(s, u.landed().cursor));
}

} // verus!
