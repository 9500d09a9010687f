//! The help and scrolling through it.
use vstd::prelude::*;

use crate::keys::KeyCode;
use crate::screen::{greater, last_index, less_one, lesser, max_usize, min_usize, minus, sub_usize};
use crate::spans::capped_sum;
use crate::state::{App, AppV};
use crate::text::{split_lines, split_lines_of, texts};

verus! {

/// The text of the help.
pub const HELP_TEXT: &'static str = "\n  Navigation:\n    j / Down  Move down line by line\n    k / Up    Move up line by line\n    n / N     Next / previous chunk\n    Tab       Next file\n    Shift+Tab Previous file\n    Ctrl+d    Half page down\n    Ctrl+u    Half page up\n    g         Go to start\n    :         Go to line (expanded view)\n    G         Go to end\n\n  Search & Copy:\n    f         Search by filename (regex)\n    /         Search in content (regex)\n    n / N     Next / previous match (when searching)\n    Esc       Clear search\n    y         Copy selection/current line\n\n  View:\n    x         Expand/collapse current file (full view)\n    h         Toggle deletions in expanded view\n    c         Collapse/expand current file\n    B         Toggle sidebar\n    b         Focus sidebar\n    v         Toggle side-by-side view\n    s         Stage/unstage current hunk\n    D         Discard current hunk (unstaged)\n    u         Toggle staged/unstaged view\n    R         Reload diff\n    Ctrl+r    Reload diff (global)\n    @         Send annotation to AI\n    P         Toggle AI pane\n    A         Annotation list\n\n  Annotations:\n    a         Add annotation at current line\n    e         Edit annotation at current line\n    d         Delete annotation at current line\n    r         Resolve annotation at current line\n    t         Toggle annotation type (comment/todo)\n    V         Select lines for range annotation\n\n  Other:\n    ?         Toggle this help\n    q         Quit\n\n  In annotation mode:\n    Enter     Save annotation\n    Ctrl+j    Add newline\n    Ctrl+d/u  Scroll diff\n    PgUp/PgDn Scroll diff\n    Ctrl+t    Toggle annotation type\n    Arrows    Move cursor\n    Home/End  Line start/end\n    Del/BS    Delete\n    Esc       Cancel\n";

/// How many lines the help has.
pub open spec fn help_len() -> int {
    split_lines_of(HELP_TEXT@).len() as int
}

/// How many lines the help has.
pub fn help_line_count() -> (n: usize)
    ensures
        n == help_len(),
{
    let lines = split_lines(HELP_TEXT);
    assert(texts(lines@).len() == lines@.len());
    lines.len()
}

impl AppV {
    /// The furthest that the help scrolls.
    pub open spec fn max_help_scroll(self) -> int {
        minus(help_len(), greater(self.help_visible_height, 1))
    }

    /// How far a page of the help is.
    pub open spec fn help_page(self) -> int {
        greater(minus(self.help_visible_height, 1), 1)
    }

    /// With the help scrolled.
    pub open spec fn help_at(self, scroll: int) -> AppV {
        AppV { help_scroll: scroll, ..self }
    }

    /// With the help a line further down, unless it is at its end.
    pub open spec fn help_down(self) -> AppV {
        if self.help_scroll < self.max_help_scroll() {
            self.help_at(self.help_scroll + 1)
        } else {
            self
        }
    }

    /// With the help a line further up.
    pub open spec fn help_up(self) -> AppV {
        self.help_at(less_one(self.help_scroll))
    }

    /// Once the mouse wheel was turned: the help scrolls, if it is shown, else the
    /// diff by three lines.
    pub open spec fn wheeled(self, up: bool) -> AppV {
        if self.show_help {
            if up {
                self.help_up()
            } else {
                self.help_down()
            }
        } else {
            self.on(
                self.screen.scrolled_by(
                    if up {
                        -3
                    } else {
                        3
                    },
                ),
            )
        }
    }

    /// Once a key was pressed while the help is shown.
    #[verifier::opaque]
    pub open spec fn help_pressed(self, code: KeyCode) -> AppV {
        match code {
            KeyCode::Char('j') | KeyCode::Down => self.help_down(),
            KeyCode::Char('k') | KeyCode::Up => self.help_up(),
            KeyCode::PageDown | KeyCode::Char(' ') => self.help_at(
                lesser(self.help_scroll + self.help_page(), self.max_help_scroll()),
            ),
            KeyCode::PageUp => self.help_at(minus(self.help_scroll, self.help_page())),
            KeyCode::Char('g') => self.help_at(0),
            KeyCode::Char('G') => self.help_at(self.max_help_scroll()),
            KeyCode::Esc | KeyCode::Char('?') => AppV { show_help: false, ..self },
            _ => self,
        }
    }

    /// With the help shown from its start, or hidden.
    #[verifier::opaque]
    pub open spec fn help_toggled(self) -> AppV {
        if self.show_help {
            AppV { show_help: false, ..self }
        } else {
            AppV { show_help: true, help_scroll: 0, ..self }
        }
    }
}

impl App {
    /// The furthest that the help scrolls.
    pub fn max_help_scroll(&self) -> (r: usize)
        ensures
            r == self@.max_help_scroll(),
    {
        reveal(App::model);
        sub_usize(help_line_count(), max_usize(self.help_visible_height, 1))
    }

    fn help_page_of(&self) -> (r: usize)
        ensures
            r == self@.help_page(),
    {
        reveal(App::model);
        max_usize(sub_usize(self.help_visible_height, 1), 1)
    }

    /// Scrolls the help down by a line.
    pub fn help_scroll_down(&mut self)
        ensures
            final(self)@ == old(self)@.help_down(),
            old(self)@.wf() ==> final(self)@.wf(),
    {
        let scroll = self.help_scroll();
        if scroll < self.max_help_scroll() {
            self.set_help_scroll(scroll + 1);
        }
    }

    /// Scrolls the help up by a line.
    pub fn help_scroll_up(&mut self)
        ensures
            final(self)@ == old(self)@.help_up(),
            old(self)@.wf() ==> final(self)@.wf(),
    {
        let scroll = self.help_scroll();
        self.set_help_scroll(last_index(scroll));
    }

    /// Scrolls by a turn of the mouse wheel: the help, if it is shown, else the
    /// diff by three lines.
    pub fn handle_wheel(&mut self, up: bool)
        requires
            old(self)@.wf(),
        ensures
            final(self)@ == old(self)@.wheeled(up),
            final(self)@.wf(),
    {
        if self.shows_help() {
            if up {
                self.help_scroll_up();
            } else {
                self.help_scroll_down();
            }
        } else if up {
            self.scroll_by_lines(-3);
        } else {
            self.scroll_by_lines(3);
        }
    }

    /// Scrolls the help down by a page.
    pub fn help_page_down(&mut self)
        ensures
            final(self)@ == old(self)@.help_at(
                lesser(
                    old(self)@.help_scroll + old(self)@.help_page(),
                    old(self)@.max_help_scroll(),
                ),
            ),
            old(self)@.wf() ==> final(self)@.wf(),
    {
        let to = capped_sum(self.help_scroll(), self.help_page_of());
        let max = self.max_help_scroll();
        self.set_help_scroll(min_usize(to, max));
    }

    /// Scrolls the help up by a page.
    pub fn help_page_up(&mut self)
        ensures
            final(self)@ == old(self)@.help_at(
                minus(old(self)@.help_scroll, old(self)@.help_page()),
            ),
            old(self)@.wf() ==> final(self)@.wf(),
    {
        let to = sub_usize(self.help_scroll(), self.help_page_of());
        self.set_help_scroll(to);
    }

    /// Handles a key while the help is shown.
    pub fn handle_help_input(&mut self, code: KeyCode)
        ensures
            final(self)@ == old(self)@.help_pressed(code),
            old(self)@.wf() ==> final(self)@.wf(),
    {
        reveal(AppV::help_pressed);
        match code {
            KeyCode::Char('j') | KeyCode::Down => self.help_scroll_down(),
            KeyCode::Char('k') | KeyCode::Up => self.help_scroll_up(),
            KeyCode::PageDown | KeyCode::Char(' ') => self.help_page_down(),
            KeyCode::PageUp => self.help_page_up(),
            KeyCode::Char('g') => self.set_help_scroll(0),
            KeyCode::Char('G') => {
                let max = self.max_help_scroll();
                self.set_help_scroll(max);
            },
            KeyCode::Esc | KeyCode::Char('?') => self.set_show_help(false),
            _ => {},
        }
    }

    /// Whether the help is shown.
    pub fn shows_help(&self) -> (r: bool)
        ensures
            r == self@.show_help,
    {
        reveal(App::model);
        self.show_help
    }

    /// Shows the help from its start, or hides it.
    pub fn toggle_help(&mut self)
        ensures
            final(self)@ == old(self)@.help_toggled(),
            old(self)@.wf() ==> final(self)@.wf(),
    {
        reveal(AppV::help_toggled);
        if self.shows_help() {
            self.set_show_help(false);
        } else {
            self.set_show_help(true);
            self.set_help_scroll(0);
        }
    }
}

/// Scrolling through the help by lines and pages never goes beyond its end.
pub proof fn law_help_scroll_bounded(s: AppV, code: KeyCode)
    requires
        0 <= s.help_scroll <= s.max_help_scroll(),
    ensures
        0 <= s.help_pressed(code).help_scroll <= s.max_help_scroll(),
{
    reveal(AppV::help_pressed);
}

/// In the help, down and up scroll by a line within its bounds, and lead back from
/// each other; the end is where its last line is at the bottom; Escape hides it.
pub proof fn law_help_keys(s: AppV)
    requires
        0 <= s.help_scroll <= s.max_help_scroll(),
    ensures
        s.help_scroll < s.max_help_scroll() ==> s.help_pressed(KeyCode::Down).help_scroll
            == s.help_scroll + 1,
        s.help_scroll == s.max_help_scroll() ==> s.help_pressed(KeyCode::Down) == s,
        s.help_scroll > 0 ==> s.help_pressed(KeyCode::Up).help_scroll == s.help_scroll - 1,
        s.help_scroll == 0 ==> s.help_pressed(KeyCode::Up).help_scroll == 0,
        s.help_pressed(KeyCode::Char('j')) == s.help_pressed(KeyCode::Down),
        s.help_pressed(KeyCode::Char('k')) == s.help_pressed(KeyCode::Up),
        s.help_pressed(KeyCode::Char('g')).help_scroll == 0,
        s.help_pressed(KeyCode::Char('G')).help_scroll == s.max_help_scroll(),
        !s.help_pressed(KeyCode::Esc).show_help,
        s.help_visible_height >= 1 && help_len() >= s.help_visible_height ==> s.max_help_scroll()
            + s.help_visible_height == help_len(),
        s.show_help ==> !s.help_toggled().show_help,
        !s.show_help ==> s.help_toggled().show_help && s.help_toggled().help_scroll == 0,
        s.help_pressed(KeyCode::PageDown).help_scroll >= s.help_scroll,
        s.help_pressed(KeyCode::PageUp).help_scroll <= s.help_scroll,
{
    reveal(AppV::help_pressed);
    reveal(AppV::help_toggled);
}

/// The wheel scrolls towards where it is turned: by a line in the help, else by up to
/// three lines in the diff, within the display; the cursor stays.
pub proof fn law_wheel(s: AppV)
    requires
        0 <= s.screen.scroll,
        s.screen.scroll + s.screen.visible_height <= s.screen.lines.len(),
        0 < s.screen.lines.len(),
        0 <= s.screen.visible_height,
        !s.show_help,
    ensures
        s.wheeled(true).screen.scroll <= s.screen.scroll,
        s.wheeled(false).screen.scroll >= s.screen.scroll,
        s.screen.scroll >= 3 ==> s.wheeled(true).screen.scroll == s.screen.scroll - 3,
        s.screen.scroll + 3 + s.screen.visible_height <= s.screen.lines.len() ==> s.wheeled(
            false,
        ).screen.scroll == s.screen.scroll + 3,
        s.wheeled(true).screen.cursor == s.screen.cursor,
        s.wheeled(false).screen.cursor == s.screen.cursor,
{
}

} // verus!
