//! Steps on the screen of the application.
use vstd::prelude::*;

use crate::display::opt_idx;
use crate::outside::Editor;
use crate::screen::ScreenV;
use crate::state::{App, AppV, Mode, SearchState};
use crate::storage::{AnnotationType, Side};
use crate::text::opt_text;

verus! {

impl AppV {
    /// With another screen.
    pub open spec fn on(self, screen: ScreenV) -> AppV {
        AppV { screen, ..self }
    }
}

impl ScreenV {
    /// With the cursor on the first line, from where it is, that it can stand
    /// on, or on the last line.
    pub open spec fn skipped(self) -> ScreenV {
        if self.cursor < self.lines.len() - 1 {
            self.at(self.skip_down(self.cursor, self.lines.len() - 1))
        } else {
            self
        }
    }
}

impl App {
    /// Moves one line up.
    pub fn navigate_up(&mut self)
        requires
            old(self)@.wf(),
        ensures
            final(self)@ == old(self)@.on(old(self)@.screen.up(old(self)@.files.len() as int)),
            final(self)@.wf(),
    {
        reveal(App::model);
        let ghost s0 = self@;
        let files = self.files.len();
        assert(s0.files.len() == files);
        self.screen.navigate_up(files);
        assert(self@ == s0.on(s0.screen.up(s0.files.len() as int)));
    }

    /// Moves one line down.
    pub fn navigate_down(&mut self)
        requires
            old(self)@.wf(),
        ensures
            final(self)@ == old(self)@.on(old(self)@.screen.down(old(self)@.files.len() as int)),
            final(self)@.wf(),
    {
        reveal(App::model);
        let ghost s0 = self@;
        let files = self.files.len();
        assert(s0.files.len() == files);
        self.screen.navigate_down(files);
        assert(self@ == s0.on(s0.screen.down(s0.files.len() as int)));
    }

    /// Moves half a page up.
    pub fn page_up(&mut self)
        requires
            old(self)@.wf(),
        ensures
            final(self)@ == old(self)@.on(old(self)@.screen.paged_up(old(self)@.files.len() as int)),
            final(self)@.wf(),
    {
        reveal(App::model);
        let ghost s0 = self@;
        let files = self.files.len();
        assert(s0.files.len() == files);
        self.screen.page_up(files);
        assert(self@ == s0.on(s0.screen.paged_up(s0.files.len() as int)));
    }

    /// Moves half a page down.
    pub fn page_down(&mut self)
        requires
            old(self)@.wf(),
        ensures
            final(self)@ == old(self)@.on(old(self)@.screen.paged_down(old(self)@.files.len() as int)),
            final(self)@.wf(),
    {
        reveal(App::model);
        let ghost s0 = self@;
        let files = self.files.len();
        assert(s0.files.len() == files);
        self.screen.page_down(files);
        assert(self@ == s0.on(s0.screen.paged_down(s0.files.len() as int)));
    }

    /// Jumps to the next file.
    pub fn next_file(&mut self)
        requires
            old(self)@.wf(),
        ensures
            final(self)@ == old(self)@.on(old(self)@.screen.to_next_file(old(self)@.files.len() as int)),
            final(self)@.wf(),
    {
        reveal(App::model);
        let ghost s0 = self@;
        let files = self.files.len();
        assert(s0.files.len() == files);
        self.screen.next_file(files);
        assert(self@ == s0.on(s0.screen.to_next_file(s0.files.len() as int)));
    }

    /// Jumps to the previous file.
    pub fn prev_file(&mut self)
        requires
            old(self)@.wf(),
        ensures
            final(self)@ == old(self)@.on(old(self)@.screen.to_prev_file(old(self)@.files.len() as int)),
            final(self)@.wf(),
    {
        reveal(App::model);
        let ghost s0 = self@;
        let files = self.files.len();
        assert(s0.files.len() == files);
        self.screen.prev_file(files);
        assert(self@ == s0.on(s0.screen.to_prev_file(s0.files.len() as int)));
    }

    /// Jumps to the first line.
    pub fn go_to_start(&mut self)
        requires
            old(self)@.wf(),
        ensures
            final(self)@ == old(self)@.on(old(self)@.screen.to_start()),
            final(self)@.wf(),
    {
        reveal(App::model);
        let ghost s0 = self@;
        self.screen.go_to_start();
        assert(self@ == s0.on(s0.screen.to_start()));
    }

    /// Jumps to the last line.
    pub fn go_to_end(&mut self)
        requires
            old(self)@.wf(),
        ensures
            final(self)@ == old(self)@.on(old(self)@.screen.to_end(old(self)@.files.len() as int)),
            final(self)@.wf(),
    {
        reveal(App::model);
        let ghost s0 = self@;
        let files = self.files.len();
        assert(s0.files.len() == files);
        self.screen.go_to_end(files);
        assert(self@ == s0.on(s0.screen.to_end(s0.files.len() as int)));
    }

    /// Jumps to the next change.
    pub fn next_change(&mut self)
        requires
            old(self)@.wf(),
        ensures
            final(self)@ == old(self)@.on(old(self)@.screen.to_next_change(old(self)@.expanded is Some, old(self)@.files.len() as int)),
            final(self)@.wf(),
    {
        reveal(App::model);
        let ghost s0 = self@;
        let files = self.files.len();
        assert(s0.files.len() == files);
        let expanded = self.expanded_file.is_some();
        self.screen.next_change_chunk(expanded, files);
        assert(self@ == s0.on(s0.screen.to_next_change(s0.expanded is Some, s0.files.len() as int)));
    }

    /// Jumps to the previous change.
    pub fn prev_change(&mut self)
        requires
            old(self)@.wf(),
        ensures
            final(self)@ == old(self)@.on(old(self)@.screen.to_prev_change(old(self)@.expanded is Some, old(self)@.files.len() as int)),
            final(self)@.wf(),
    {
        reveal(App::model);
        let ghost s0 = self@;
        let files = self.files.len();
        assert(s0.files.len() == files);
        let expanded = self.expanded_file.is_some();
        self.screen.prev_change_chunk(expanded, files);
        assert(self@ == s0.on(s0.screen.to_prev_change(s0.expanded is Some, s0.files.len() as int)));
    }

    /// Scrolls by some lines.
    pub fn scroll_by_lines(&mut self, delta: i32)
        requires
            old(self)@.wf(),
        ensures
            final(self)@ == old(self)@.on(old(self)@.screen.scrolled_by(delta as int)),
            final(self)@.wf(),
    {
        reveal(App::model);
        let ghost s0 = self@;
        self.screen.scroll_by_lines(delta);
        assert(self@ == s0.on(s0.screen.scrolled_by(delta as int)));
    }

    /// Drops the selection.
    pub fn clear_selection(&mut self)
        requires
            old(self)@.wf(),
        ensures
            final(self)@ == old(self)@.on(old(self)@.screen.unselected()),
            final(self)@.wf(),
    {
        reveal(App::model);
        let ghost s0 = self@;
        self.screen.clear_selection();
        assert(self@ == s0.on(s0.screen.unselected()));
    }

    /// Moves the cursor to a line and brings it into view.
    pub fn move_to(&mut self, idx: usize)
        requires
            old(self)@.wf(),
        ensures
            final(self)@ == old(self)@.on(old(self)@.screen.moved_to(idx as int, old(self)@.files.len() as int)),
            final(self)@.wf(),
    {
        reveal(App::model);
        let ghost s0 = self@;
        let files = self.files.len();
        assert(s0.files.len() == files);
        self.screen.move_to(idx, files);
        assert(self@ == s0.on(s0.screen.moved_to(idx as int, s0.files.len() as int)));
    }

    /// Brings the cursor into view.
    pub fn adjust(&mut self)
        requires
            old(self)@.wf(),
        ensures
            final(self)@ == old(self)@.on(old(self)@.screen.adjusted(old(self)@.files.len() as int)),
            final(self)@.wf(),
    {
        reveal(App::model);
        let ghost s0 = self@;
        let files = self.files.len();
        assert(s0.files.len() == files);
        self.screen.adjust_scroll(files);
        assert(self@ == s0.on(s0.screen.adjusted(s0.files.len() as int)));
    }

    /// Moves the cursor off a line that it cannot stand on.
    pub fn land(&mut self)
        requires
            old(self)@.wf(),
        ensures
            final(self)@ == old(self)@.on(old(self)@.screen.landed()),
            final(self)@.wf(),
    {
        reveal(App::model);
        let ghost s0 = self@;
        self.screen.ensure_cursor_on_navigable();
        assert(self@ == s0.on(s0.screen.landed()));
    }

    /// Changes what keys mean.
    pub fn set_mode(&mut self, mode: Mode)
        ensures
            final(self)@ == (AppV { mode, ..old(self)@ }),
            old(self)@.wf() ==> final(self)@.wf(),
    {
        reveal(App::model);
        let ghost s0 = self@;
        self.mode = mode;
        assert(self@ == (AppV { mode, ..s0 }));
    }

    /// Changes which file is expanded.
    pub fn set_expanded(&mut self, idx: Option<usize>)
        ensures
            final(self)@ == (AppV { expanded: opt_idx(idx), ..old(self)@ }),
            old(self)@.wf() ==> final(self)@.wf(),
    {
        reveal(App::model);
        let ghost s0 = self@;
        self.expanded_file = idx;
        assert(self@ == (AppV { expanded: opt_idx(idx), ..s0 }));
    }

    /// Shows or hides the help.
    pub fn set_show_help(&mut self, show: bool)
        ensures
            final(self)@ == (AppV { show_help: show, ..old(self)@ }),
            old(self)@.wf() ==> final(self)@.wf(),
    {
        reveal(App::model);
        let ghost s0 = self@;
        self.show_help = show;
        assert(self@ == (AppV { show_help: show, ..s0 }));
    }

    /// Scrolls the help.
    pub fn set_help_scroll(&mut self, scroll: usize)
        ensures
            final(self)@ == (AppV { help_scroll: scroll as int, ..old(self)@ }),
            old(self)@.wf() ==> final(self)@.wf(),
    {
        reveal(App::model);
        let ghost s0 = self@;
        self.help_scroll = scroll;
        assert(self@ == (AppV { help_scroll: scroll as int, ..s0 }));
    }

    /// Changes the search.
    pub fn set_search(&mut self, search: Option<SearchState>)
        ensures
            final(self)@ == (AppV { search: crate::state::opt_search(search), ..old(self)@ }),
            old(self)@.wf() && (search matches Some(s) ==> s.matches@.len() > 0 ==> s.current_match
                < s.matches@.len()) ==> final(self)@.wf(),
    {
        reveal(App::model);
        let ghost s0 = self@;
        self.search = search;
        assert(self@ == (AppV { search: crate::state::opt_search(search), ..s0 }));
    }

    /// Changes the line number that is typed.
    pub fn set_goto_input(&mut self, input: String)
        ensures
            final(self)@ == (AppV { goto_input: input@, ..old(self)@ }),
            old(self)@.wf() ==> final(self)@.wf(),
    {
        reveal(App::model);
        let ghost s0 = self@;
        self.goto_line_input = input;
        assert(self@ == (AppV { goto_input: input@, ..s0 }));
    }

    /// Selects an annotation of the list.
    pub fn set_list_idx(&mut self, idx: usize)
        ensures
            final(self)@ == (AppV { list_idx: idx as int, ..old(self)@ }),
            old(self)@.wf() ==> final(self)@.wf(),
    {
        reveal(App::model);
        let ghost s0 = self@;
        self.annotation_list_idx = idx;
        assert(self@ == (AppV { list_idx: idx as int, ..s0 }));
    }

    /// Changes the text input.
    pub fn set_input(&mut self, input: Editor)
        ensures
            final(self)@ == (AppV { input, ..old(self)@ }),
            old(self)@.wf() ==> final(self)@.wf(),
    {
        reveal(App::model);
        let ghost s0 = self@;
        self.annotation_input = input;
        assert(self@ == (AppV { input, ..s0 }));
    }

    /// Changes the type of new annotations.
    pub fn set_annotation_type(&mut self, annotation_type: AnnotationType)
        ensures
            final(self)@ == (AppV { annotation_type, ..old(self)@ }),
            old(self)@.wf() ==> final(self)@.wf(),
    {
        reveal(App::model);
        let ghost s0 = self@;
        self.annotation_type = annotation_type;
        assert(self@ == (AppV { annotation_type, ..s0 }));
    }

    /// Changes the lines of a new annotation.
    pub fn set_annotation_range(&mut self, range: Option<(u32, u32)>)
        ensures
            final(self)@ == (AppV { annotation_range: range, ..old(self)@ }),
            old(self)@.wf() ==> final(self)@.wf(),
    {
        reveal(App::model);
        let ghost s0 = self@;
        self.annotation_range = range;
        assert(self@ == (AppV { annotation_range: range, ..s0 }));
    }

    /// Changes the side of a new annotation.
    pub fn set_annotation_side(&mut self, side: Option<Side>)
        ensures
            final(self)@ == (AppV { annotation_side: side, ..old(self)@ }),
            old(self)@.wf() ==> final(self)@.wf(),
    {
        reveal(App::model);
        let ghost s0 = self@;
        self.annotation_side = side;
        assert(self@ == (AppV { annotation_side: side, ..s0 }));
    }

    /// Shows or hides the AI pane.
    pub fn set_show_ai_pane(&mut self, show: bool)
        ensures
            final(self)@ == (AppV { show_ai_pane: show, ..old(self)@ }),
            old(self)@.wf() ==> final(self)@.wf(),
    {
        reveal(App::model);
        let ghost s0 = self@;
        self.show_ai_pane = show;
        assert(self@ == (AppV { show_ai_pane: show, ..s0 }));
    }

    /// Selects an AI job.
    pub fn set_ai_selected(&mut self, idx: usize)
        ensures
            final(self)@ == (AppV { ai_selected: idx as int, ..old(self)@ }),
            old(self)@.wf() ==> final(self)@.wf(),
    {
        reveal(App::model);
        let ghost s0 = self@;
        self.ai_selected_idx = idx;
        assert(self@ == (AppV { ai_selected: idx as int, ..s0 }));
    }

    /// Notes whether files have changed.
    pub fn set_fs_pending(&mut self, pending: bool)
        ensures
            final(self)@ == (AppV { fs_pending: pending, ..old(self)@ }),
            old(self)@.wf() ==> final(self)@.wf(),
    {
        reveal(App::model);
        let ghost s0 = self@;
        self.fs_pending = pending;
        assert(self@ == (AppV { fs_pending: pending, ..s0 }));
    }

    /// Changes the message.
    pub fn set_message(&mut self, message: Option<String>)
        ensures
            final(self)@ == (AppV { message: opt_text(message), ..old(self)@ }),
            old(self)@.wf() ==> final(self)@.wf(),
    {
        reveal(App::model);
        let ghost s0 = self@;
        self.message = message;
        assert(self@ == (AppV { message: opt_text(message), ..s0 }));
    }

    /// Moves the cursor down to the first line that it can stand on, or to the
    /// last line.
    pub fn skip_to_first(&mut self)
        requires
            old(self)@.wf(),
        ensures
            final(self)@ == old(self)@.on(old(self)@.screen.skipped()),
            final(self)@.wf(),
    {
        reveal(App::model);
        let ghost s0 = self@;
        let n = self.screen.display_lines.len();
        if n > 0 && self.screen.current_line_idx < n - 1 {
            let to = self.screen.skip_down(self.screen.current_line_idx, n - 1);
            self.screen.current_line_idx = to;
        }
        assert(self@ == s0.on(s0.screen.skipped()));
    }

    /// Changes how many lines there is room for.
    pub fn set_visible_height(&mut self, height: usize)
        requires
            old(self)@.wf(),
        ensures
            final(self)@ == old(self)@.on(
                (ScreenV { visible_height: height as int, ..old(self)@.screen }),
            ),
            final(self)@.wf(),
    {
        reveal(App::model);
        let ghost s0 = self@;
        self.screen.visible_height = height;
        assert(self@ == s0.on((ScreenV { visible_height: height as int, ..s0.screen })));
    }

    /// Changes how many lines of the help there is room for.
    pub fn set_help_visible_height(&mut self, height: usize)
        ensures
            final(self)@ == (AppV { help_visible_height: height as int, ..old(self)@ }),
            old(self)@.wf() ==> final(self)@.wf(),
    {
        reveal(App::model);
        let ghost s0 = self@;
        self.help_visible_height = height;
        assert(self@ == (AppV { help_visible_height: height as int, ..s0 }));
    }
}

} // verus!
