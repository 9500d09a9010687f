//! What keys do.
use vstd::prelude::*;

use crate::action::{Action, ActionV, Next, NextV};
use crate::commands::other_type;
use crate::display::opt_idx;
use crate::keys::{
    editor_is_empty, empty_editor, new_editor, nothing_typed, typed_text, Key, KeyCode, Motion,
};
use crate::list::{entry_views, EntryV};
use crate::navigate::{
    can_stand, law_down_is_next, law_ends, law_line_by_number, law_moved_to, law_up_is_previous,
};
use crate::number::{dec, decimal, parse_u32, u32_value};
use crate::outside::{
    editor_break, editor_broken, editor_delete_head, editor_delete_tail, editor_move,
    editor_moved, editor_type, editor_typed, editor_without_head, editor_without_tail,
};
use crate::screen::{last_index, less_one, lesser, min_usize, Screen, ScreenV};
use crate::spans::capped_sum;
use crate::state::{App, AppV, Disk, DiskV, Mode, SearchType, SearchV};
use crate::storage::{
    delete_statement, insert_statement, resolve_statement, unresolve_statement, update_statement,
    AnnotationType, Storage,
};
use crate::text::{chars_of, string_of, trim, trimmed};

verus! {

/// A text without its last character.
pub open spec fn without_last(s: Seq<char>) -> Seq<char> {
    if s.len() == 0 {
        s
    } else {
        s.drop_last()
    }
}

fn drop_last_char(s: &str) -> (r: String)
    ensures
        r@ == without_last(s@),
{
    let chars = chars_of(s);
    let n = chars.len();
    let r = string_of(&chars, 0, last_index(n));
    assert(r@ =~= without_last(s@));
    r
}

/// A key as the text input takes it: one that was released does nothing.
pub open spec fn taken_key(key: Key) -> Key {
    if key.released {
        Key {
            code: KeyCode::Other,
            control: false,
            alt: false,
            shift: false,
            meta: false,
            released: true,
        }
    } else {
        key
    }
}

impl ScreenV {
    /// With the sidebar on another file, and the cursor there.
    #[verifier::opaque]
    pub open spec fn sidebar_moved(self, to: int, files: int) -> ScreenV {
        let s = ScreenV { sidebar_index: to, ..self };
        match s.header_of_file(0, to) {
            Some(i) if to < files => s.moved_to(i, files),
            _ => s,
        }
    }

    /// Once a key was pressed in the sidebar.
    #[verifier::opaque]
    pub open spec fn sidebar_pressed(self, code: KeyCode, files: int) -> ScreenV {
        if files == 0 {
            self
        } else {
            match code {
                KeyCode::Char('j') | KeyCode::Down => self.sidebar_moved(
                    if self.sidebar_index + 1 < files {
                        self.sidebar_index + 1
                    } else {
                        self.sidebar_index
                    },
                    files,
                ),
                KeyCode::Char('k') | KeyCode::Up => self.sidebar_moved(
                    less_one(self.sidebar_index),
                    files,
                ),
                KeyCode::Enter | KeyCode::Esc => ScreenV { sidebar_focused: false, ..self },
                _ => self,
            }
        }
    }
}

impl AppV {
    /// On the next match of a search, or on the next change.
    pub open spec fn next_pressed(self) -> AppV {
        if self.search is Some {
            self.to_next_match()
        } else {
            self.on(
                self.screen.to_next_change(self.expanded is Some, self.files.len() as int),
            )
        }
    }

    /// On the previous match of a search, or on the previous change.
    pub open spec fn prev_pressed(self) -> AppV {
        if self.search is Some {
            self.to_prev_match()
        } else {
            self.on(
                self.screen.to_prev_change(self.expanded is Some, self.files.len() as int),
            )
        }
    }

    /// Without a search and without a selection.
    pub open spec fn escaped(self) -> AppV {
        let s = AppV { search: None, ..self };
        if s.screen.selection_active {
            s.on(s.screen.unselected())
        } else {
            s
        }
    }

    /// Asking for a line of an expanded file.
    pub open spec fn goto_begun(self) -> AppV {
        if self.expanded is Some {
            AppV { mode: Mode::GotoLine, goto_input: Seq::empty(), ..self }
        } else {
            self.saying("Line jump is available in expanded view (x)"@)
        }
    }

    /// Once a key for moving about was pressed; none for other keys.
    #[verifier::opaque]
    pub open spec fn move_pressed(self, code: KeyCode) -> Option<AppV> {
        let files = self.files.len() as int;
        match code {
            KeyCode::Char('j') | KeyCode::Down => Some(self.on(self.screen.down(files))),
            KeyCode::Char('k') | KeyCode::Up => Some(self.on(self.screen.up(files))),
            KeyCode::Char('n') => Some(self.next_pressed()),
            KeyCode::Char('N') => Some(self.prev_pressed()),
            KeyCode::Tab => Some(self.on(self.screen.to_next_file(files))),
            KeyCode::BackTab => Some(self.on(self.screen.to_prev_file(files))),
            KeyCode::Char('f') => Some(self.search_begun(SearchType::File)),
            KeyCode::Char('/') => Some(self.search_begun(SearchType::Content)),
            KeyCode::Esc => Some(self.escaped()),
            KeyCode::Char('g') => Some(self.on(self.screen.to_start())),
            KeyCode::Char('G') => Some(self.on(self.screen.to_end(files))),
            KeyCode::Char(':') => Some(self.goto_begun()),
            _ => None,
        }
    }

    /// Once a key for the views was pressed; none for other keys.
    #[verifier::opaque]
    pub open spec fn view_pressed(self, code: KeyCode, disk: DiskV) -> Option<AppV> {
        match code {
            KeyCode::Char('c') => Some(self.collapse_toggled(disk)),
            KeyCode::Char('h') => Some(self.deletions_toggled(disk)),
            KeyCode::Char('A') => Some(AppV { mode: Mode::AnnotationList, list_idx: 0, ..self }),
            KeyCode::Char('P') => Some(AppV { show_ai_pane: !self.show_ai_pane, ..self }),
            KeyCode::Char('v') => Some(self.layout_toggled()),
            KeyCode::Char('x') => Some(self.expand_toggled(disk)),
            KeyCode::Char('a') => Some(self.annotation_begun()),
            KeyCode::Char('e') => Some(self.edit_begun()),
            _ => None,
        }
    }

    /// Once any other key was pressed.
    #[verifier::opaque]
    pub open spec fn command_pressed(self, code: KeyCode) -> (AppV, ActionV) {
        match code {
            KeyCode::Char('r') => self.resolving(),
            KeyCode::Char('@') => self.sending(),
            KeyCode::Char('s') => self.staging(),
            KeyCode::Char('D') => self.discarding(),
            KeyCode::Char('u') => self.view_toggled(),
            KeyCode::Char('R') => (self.reloading().saying("Diff reloaded"@), ActionV::LoadDiff),
            KeyCode::Char('y') => self.copying(),
            KeyCode::Char('d') => (self, self.deleting()),
            KeyCode::Char('t') => self.retyping(),
            _ => (self, ActionV::Idle),
        }
    }

    /// Selecting another AI job; none for other keys.
    pub open spec fn pane_pressed(self, code: KeyCode) -> Option<AppV> {
        match code {
            KeyCode::Char('[') if self.show_ai_pane => Some(
                AppV { ai_selected: less_one(self.ai_selected), ..self },
            ),
            KeyCode::Char(']') if self.show_ai_pane => Some(
                if self.ai_selected + 1 < self.ai_jobs.len() {
                    AppV { ai_selected: self.ai_selected + 1, ..self }
                } else {
                    self
                },
            ),
            _ => None,
        }
    }

    /// Once a key was pressed that is not one of the sidebar's.
    #[verifier::opaque]
    pub open spec fn plain_pressed(self, code: KeyCode, disk: DiskV) -> (AppV, ActionV) {
        match self.pane_pressed(code) {
            Some(s) => (s, ActionV::Idle),
            None => if code == KeyCode::Char('q') {
                (self, ActionV::Quit)
            } else if code == KeyCode::Char('V') {
                (self.selection_toggled(), ActionV::Idle)
            } else {
                match self.move_pressed(code) {
                    Some(s) => (s, ActionV::Idle),
                    None => match self.view_pressed(code, disk) {
                        Some(s) => (s, ActionV::Idle),
                        None => self.command_pressed(code),
                    },
                }
            },
        }
    }

    /// Once a key was pressed while the diff has the focus.
    #[verifier::opaque]
    pub open spec fn normal_pressed(self, key: Key, disk: DiskV) -> (AppV, ActionV) {
        let files = self.files.len() as int;
        if key.control && key.code == KeyCode::Char('d') {
            (self.on(self.screen.paged_down(files)), ActionV::Idle)
        } else if key.control && key.code == KeyCode::Char('u') {
            (self.on(self.screen.paged_up(files)), ActionV::Idle)
        } else if key.code == KeyCode::Char('B') {
            (self.sidebar_toggled(), ActionV::Idle)
        } else if key.code == KeyCode::Char('b') && self.screen.sidebar_open {
            (
                self.on(
                    ScreenV { sidebar_focused: !self.screen.sidebar_focused, ..self.screen },
                ),
                ActionV::Idle,
            )
        } else if self.screen.sidebar_open && self.screen.sidebar_focused {
            (self.on(self.screen.sidebar_pressed(key.code, files)), ActionV::Idle)
        } else {
            self.plain_pressed(key.code, disk)
        }
    }

    /// With the text input changed by a key; none for keys that do not edit.
    #[verifier::opaque]
    pub open spec fn edit_pressed(self, key: Key) -> Option<AppV> {
        let files = self.files.len() as int;
        if key.control && key.code == KeyCode::Char('j') {
            Some(AppV { input: editor_broken(self.input), ..self })
        } else if key.control && key.code == KeyCode::Char('d') {
            Some(self.on(self.screen.paged_down(files)))
        } else if key.control && key.code == KeyCode::Char('u') {
            Some(self.on(self.screen.paged_up(files)))
        } else if key.control && key.code == KeyCode::Char('t') {
            Some(AppV { annotation_type: other_type(self.annotation_type), ..self })
        } else if key.meta && key.code == KeyCode::Backspace {
            Some(AppV { input: editor_without_head(self.input), ..self })
        } else if key.meta && key.code == KeyCode::Delete {
            Some(AppV { input: editor_without_tail(self.input), ..self })
        } else if key.meta && key.code == KeyCode::Left {
            Some(AppV { input: editor_moved(self.input, Motion::Head), ..self })
        } else if key.meta && key.code == KeyCode::Right {
            Some(AppV { input: editor_moved(self.input, Motion::End), ..self })
        } else if key.alt && key.code == KeyCode::Left {
            Some(AppV { input: editor_moved(self.input, Motion::WordBack), ..self })
        } else if key.alt && key.code == KeyCode::Right {
            Some(AppV { input: editor_moved(self.input, Motion::WordForward), ..self })
        } else {
            None
        }
    }

    /// Saving the text that was typed, if there is any.
    #[verifier::opaque]
    pub open spec fn saving(self, disk: DiskV) -> (AppV, ActionV) {
        if nothing_typed(self.input) {
            (self, ActionV::Idle)
        } else {
            match self.mode {
                Mode::AddAnnotation => match self.draft(disk) {
                    Some(a) => (
                        self,
                        ActionV::Store {
                            statement: insert_statement(self.repo_id, a),
                            next: NextV::Added(a),
                        },
                    ),
                    None => (self.on(self.screen.unselected()).input_closed(), ActionV::Idle),
                },
                Mode::EditAnnotation(id) => (
                    self,
                    ActionV::Store {
                        statement: update_statement(
                            id,
                            typed_text(self.input),
                            self.annotation_type,
                        ),
                        next: NextV::Edited {
                            id,
                            content: typed_text(self.input),
                            annotation_type: self.annotation_type,
                        },
                    },
                ),
                _ => (self, ActionV::Idle),
            }
        }
    }

    /// Once a key was pressed while an annotation is written.
    #[verifier::opaque]
    pub open spec fn annotation_pressed(self, key: Key, disk: DiskV) -> (AppV, ActionV) {
        let files = self.files.len() as int;
        match self.edit_pressed(key) {
            Some(s) => (s, ActionV::Idle),
            None => match key.code {
                KeyCode::Esc => (
                    AppV { mode: Mode::Normal, input: empty_editor(), ..self },
                    ActionV::Idle,
                ),
                KeyCode::Enter => self.saving(disk),
                KeyCode::PageUp => (self.on(self.screen.paged_up(files)), ActionV::Idle),
                KeyCode::PageDown => (self.on(self.screen.paged_down(files)), ActionV::Idle),
                _ => (
                    AppV { input: editor_typed(self.input, taken_key(key)), ..self },
                    ActionV::Idle,
                ),
            },
        }
    }

    /// With another query, searched for at once.
    pub open spec fn with_query(self, query: Seq<char>) -> AppV {
        match self.search {
            Some(s) => (AppV { search: Some(SearchV { query, ..s }), ..self }).searched(),
            None => self,
        }
    }

    /// What is said of a search.
    pub open spec fn match_message(self) -> Option<Seq<char>> {
        match self.search {
            Some(s) => Some(
                if s.matches.len() == 0 {
                    "No matches found"@
                } else {
                    "Found "@ + dec(s.matches.len()) + " match"@ + (if s.matches.len() == 1 {
                        ""@
                    } else {
                        "es"@
                    })
                },
            ),
            None => self.message,
        }
    }

    /// The query of the search.
    pub open spec fn query(self) -> Seq<char> {
        match self.search {
            Some(s) => s.query,
            None => Seq::empty(),
        }
    }

    /// Once a key was pressed while a query is typed.
    #[verifier::opaque]
    pub open spec fn search_pressed(self, code: KeyCode) -> AppV {
        match code {
            KeyCode::Esc => AppV { mode: Mode::Normal, search: None, ..self },
            KeyCode::Enter => {
                let s = AppV { mode: Mode::Normal, ..self.searched() };
                AppV { message: s.match_message(), ..s }
            },
            KeyCode::Backspace => self.with_query(without_last(self.query())),
            KeyCode::Char(c) => self.with_query(self.query().push(c)),
            _ => self,
        }
    }

    /// With the cursor on a line of an expanded file.
    pub open spec fn at_line(self, no: u32) -> AppV {
        if self.expanded is Some {
            match self.screen.line_numbered(0, no, false) {
                Some(i) => self.on(self.screen.moved_to(i, self.files.len() as int)),
                None => self.saying("Line "@ + dec(no as nat) + " not found"@),
            }
        } else {
            self.saying("Line jump is available in expanded view (x)"@)
        }
    }

    /// Once a key was pressed while a line number is typed.
    #[verifier::opaque]
    pub open spec fn goto_pressed(self, code: KeyCode) -> AppV {
        match code {
            KeyCode::Esc => AppV { mode: Mode::Normal, goto_input: Seq::empty(), ..self },
            KeyCode::Enter => {
                let s = AppV { mode: Mode::Normal, ..self };
                let t = match u32_value(trimmed(self.goto_input)) {
                    Some(no) => s.at_line(no),
                    None => s.saying("Enter a line number"@),
                };
                AppV { goto_input: Seq::empty(), ..t }
            },
            KeyCode::Backspace => AppV { goto_input: without_last(self.goto_input), ..self },
            KeyCode::Char(c) if '0' <= c <= '9' => AppV {
                goto_input: self.goto_input.push(c),
                ..self
            },
            _ => self,
        }
    }

    /// Going to an annotation of the list.
    pub open spec fn entry_chosen(self, e: EntryV) -> AppV {
        match e.display_idx {
            Some(i) => AppV {
                mode: Mode::Normal,
                ..self.on(self.screen.moved_to(i, self.files.len() as int))
            },
            None => self.saying("Annotation not present in current diff"@),
        }
    }

    /// Once a key was pressed in the list of annotations.
    #[verifier::opaque]
    pub open spec fn list_pressed(self, code: KeyCode) -> (AppV, ActionV) {
        let n = self.entries().len() as int;
        if code == KeyCode::Esc || code == KeyCode::Char('q') {
            (AppV { mode: Mode::Normal, ..self }, ActionV::Idle)
        } else if n == 0 {
            (self, ActionV::Idle)
        } else {
            let selected = if self.list_idx < n {
                Some(self.entries()[self.list_idx])
            } else {
                None
            };
            match (code, selected) {
                (KeyCode::Char('P'), _) => (
                    AppV { show_ai_pane: !self.show_ai_pane, ..self },
                    ActionV::Idle,
                ),
                (KeyCode::Char('j') | KeyCode::Down, _) => (
                    AppV { list_idx: lesser(self.list_idx + 1, n - 1), ..self },
                    ActionV::Idle,
                ),
                (KeyCode::Char('k') | KeyCode::Up, _) => (
                    AppV { list_idx: less_one(self.list_idx), ..self },
                    ActionV::Idle,
                ),
                (KeyCode::Char('d'), Some(e)) => (
                    self,
                    ActionV::Store { statement: delete_statement(e.id), next: NextV::ReloadList },
                ),
                (KeyCode::Enter, Some(e)) => (self.entry_chosen(e), ActionV::Idle),
                (KeyCode::Char('e'), Some(e)) => (
                    self.editing(e.id, e.content, e.annotation_type),
                    ActionV::Idle,
                ),
                _ => (self, ActionV::Idle),
            }
        }
    }

    /// Once a key was pressed. The message goes first.
    #[verifier::opaque]
    pub open spec fn pressed(self, key: Key, disk: DiskV) -> (AppV, ActionV) {
        let s = AppV { message: None, ..self };
        if key.control && key.code == KeyCode::Char('r') {
            (s.reloading().saying("Diff reloaded"@), ActionV::LoadDiff)
        } else if key.code == KeyCode::Char('?') && (s.mode == Mode::Normal || s.mode
            == Mode::AnnotationList) {
            (s.help_toggled(), ActionV::Idle)
        } else if s.show_help {
            (s.help_pressed(key.code), ActionV::Idle)
        } else {
            match s.mode {
                Mode::Normal => s.normal_pressed(key, disk),
                Mode::AddAnnotation | Mode::EditAnnotation(_) => s.annotation_pressed(key, disk),
                Mode::SearchFile | Mode::SearchContent => (
                    s.search_pressed(key.code),
                    ActionV::Idle,
                ),
                Mode::AnnotationList => s.list_pressed(key.code),
                Mode::GotoLine => (s.goto_pressed(key.code), ActionV::Idle),
            }
        }
    }
}

impl Screen {
    fn move_sidebar(&mut self, to: usize, files: usize)
        ensures
            final(self)@ == old(self)@.sidebar_moved(to as int, files as int),
            final(self)@.same_display(old(self)@),
    {
        reveal(ScreenV::sidebar_moved);
        let ghost s0 = self@;
        self.sidebar_index = to;
        assert(self@ =~= (ScreenV { sidebar_index: to as int, ..s0 }));
        if to < files {
            if let Some(i) = self.find_file_header_idx(to) {
                self.move_to(i, files);
            }
        }
    }

    fn handle_sidebar_input(&mut self, code: KeyCode, files: usize)
        ensures
            final(self)@ == old(self)@.sidebar_pressed(code, files as int),
            final(self)@.same_display(old(self)@),
    {
        reveal(ScreenV::sidebar_pressed);
        let ghost s0 = self@;
        if files == 0 {
            return ;
        }
        match code {
            KeyCode::Char('j') | KeyCode::Down => {
                let to = if self.sidebar_index < files - 1 {
                    self.sidebar_index + 1
                } else {
                    self.sidebar_index
                };
                self.move_sidebar(to, files);
            },
            KeyCode::Char('k') | KeyCode::Up => {
                let to = last_index(self.sidebar_index);
                self.move_sidebar(to, files);
            },
            KeyCode::Enter | KeyCode::Esc => {
                self.sidebar_focused = false;
                assert(self@ =~= (ScreenV { sidebar_focused: false, ..s0 }));
            },
            _ => {},
        }
    }
}

impl App {
    fn has_search(&self) -> (r: bool)
        ensures
            r == (self@.search is Some),
    {
        reveal(App::model);
        self.search.is_some()
    }

    fn go_next(&mut self)
        requires
            old(self)@.wf(),
        ensures
            final(self)@ == old(self)@.next_pressed(),
            final(self)@.wf(),
    {
        if self.has_search() {
            self.next_search_match();
        } else {
            self.next_change();
        }
    }

    fn go_prev(&mut self)
        requires
            old(self)@.wf(),
        ensures
            final(self)@ == old(self)@.prev_pressed(),
            final(self)@.wf(),
    {
        if self.has_search() {
            self.prev_search_match();
        } else {
            self.prev_change();
        }
    }

    fn escape(&mut self)
        requires
            old(self)@.wf(),
        ensures
            final(self)@ == old(self)@.escaped(),
            final(self)@.wf(),
    {
        self.set_search(None);
        if self.selecting() {
            self.clear_selection();
        }
    }

    fn selecting(&self) -> (r: bool)
        ensures
            r == self@.screen.selection_active,
    {
        reveal(App::model);
        self.screen.selection_active
    }

    fn begin_goto(&mut self)
        requires
            old(self)@.wf(),
        ensures
            final(self)@ == old(self)@.goto_begun(),
            final(self)@.wf(),
    {
        if self.expanded().is_some() {
            let empty = String::new();
            assert(empty@ =~= Seq::empty());
            self.set_mode(Mode::GotoLine);
            self.set_goto_input(empty);
        } else {
            self.say("Line jump is available in expanded view (x)");
        }
    }

    /// Handles a key for moving about. Tells whether it was one.
    fn handle_move(&mut self, code: KeyCode) -> (r: bool)
        requires
            old(self)@.wf(),
        ensures
            match old(self)@.move_pressed(code) {
                Some(s) => r && final(self)@ == s,
                None => !r && final(self)@ == old(self)@,
            },
            final(self)@.wf(),
    {
        reveal(AppV::move_pressed);
        match code {
            KeyCode::Char('j') | KeyCode::Down => self.navigate_down(),
            KeyCode::Char('k') | KeyCode::Up => self.navigate_up(),
            KeyCode::Char('n') => self.go_next(),
            KeyCode::Char('N') => self.go_prev(),
            KeyCode::Tab => self.next_file(),
            KeyCode::BackTab => self.prev_file(),
            KeyCode::Char('f') => self.begin_search(SearchType::File),
            KeyCode::Char('/') => self.begin_search(SearchType::Content),
            KeyCode::Esc => self.escape(),
            KeyCode::Char('g') => self.go_to_start(),
            KeyCode::Char('G') => self.go_to_end(),
            KeyCode::Char(':') => self.begin_goto(),
            _ => {
                return false;
            },
        }
        true
    }

    fn flip_ai_pane(&mut self)
        ensures
            final(self)@ == (AppV { show_ai_pane: !old(self)@.show_ai_pane, ..old(self)@ }),
            old(self)@.wf() ==> final(self)@.wf(),
    {
        let show = !self.shows_ai_pane();
        self.set_show_ai_pane(show);
    }

    /// Whether the AI pane is shown.
    pub fn shows_ai_pane(&self) -> (r: bool)
        ensures
            r == self@.show_ai_pane,
    {
        reveal(App::model);
        self.show_ai_pane
    }

    /// Handles a key for the views. Tells whether it was one.
    fn handle_view(&mut self, code: KeyCode, disk: &Disk) -> (r: bool)
        requires
            old(self)@.wf(),
        ensures
            match old(self)@.view_pressed(code, disk@) {
                Some(s) => r && final(self)@ == s,
                None => !r && final(self)@ == old(self)@,
            },
            final(self)@.wf(),
    {
        reveal(AppV::view_pressed);
        match code {
            KeyCode::Char('c') => self.toggle_collapse_current_file(disk),
            KeyCode::Char('h') => self.toggle_deletions(disk),
            KeyCode::Char('A') => {
                self.set_mode(Mode::AnnotationList);
                self.set_list_idx(0);
            },
            KeyCode::Char('P') => self.flip_ai_pane(),
            KeyCode::Char('v') => self.toggle_layout(),
            KeyCode::Char('x') => self.toggle_expanded_file(disk),
            KeyCode::Char('a') => self.begin_annotation(),
            KeyCode::Char('e') => self.edit_current(),
            _ => {
                return false;
            },
        }
        true
    }

    fn handle_command(&mut self, code: KeyCode) -> (r: Action)
        requires
            old(self)@.wf(),
        ensures
            (final(self)@, r@) == old(self)@.command_pressed(code),
            final(self)@.wf(),
    {
        reveal(AppV::command_pressed);
        match code {
            KeyCode::Char('r') => self.toggle_resolved(),
            KeyCode::Char('@') => self.spawn_ai_for_current_annotation(),
            KeyCode::Char('s') => self.toggle_stage_current_hunk(),
            KeyCode::Char('D') => self.discard_current_hunk(),
            KeyCode::Char('u') => self.toggle_diff_view(),
            KeyCode::Char('R') => {
                self.reload_diff();
                self.say("Diff reloaded");
                Action::LoadDiff
            },
            KeyCode::Char('y') => self.copy_lines(),
            KeyCode::Char('d') => self.delete_annotation_at_line(),
            KeyCode::Char('t') => self.toggle_type(),
            _ => Action::Idle,
        }
    }

    fn ai_position(&self) -> (r: (bool, usize, usize))
        ensures
            r.0 == self@.show_ai_pane,
            r.1 == self@.ai_selected,
            r.2 == self@.ai_jobs.len(),
    {
        reveal(App::model);
        (self.show_ai_pane, self.ai_selected_idx, self.ai_jobs.len())
    }

    /// Handles a key for the AI pane. Tells whether it was one.
    fn handle_pane(&mut self, code: KeyCode) -> (r: bool)
        requires
            old(self)@.wf(),
        ensures
            match old(self)@.pane_pressed(code) {
                Some(s) => r && final(self)@ == s,
                None => !r && final(self)@ == old(self)@,
            },
            final(self)@.wf(),
    {
        let (shown, selected, jobs) = self.ai_position();
        if !shown {
            return false;
        }
        match code {
            KeyCode::Char('[') => {
                self.set_ai_selected(last_index(selected));
                true
            },
            KeyCode::Char(']') => {
                if jobs > 0 && selected < jobs - 1 {
                    self.set_ai_selected(selected + 1);
                }
                true
            },
            _ => false,
        }
    }

    fn handle_plain(&mut self, code: KeyCode, disk: &Disk) -> (r: Action)
        requires
            old(self)@.wf(),
        ensures
            (final(self)@, r@) == old(self)@.plain_pressed(code, disk@),
            final(self)@.wf(),
    {
        reveal(AppV::plain_pressed);
        if self.handle_pane(code) {
            return Action::Idle;
        }
        if code == KeyCode::Char('q') {
            return Action::Quit;
        }
        if code == KeyCode::Char('V') {
            self.toggle_selection();
            return Action::Idle;
        }
        if self.handle_move(code) {
            return Action::Idle;
        }
        if self.handle_view(code, disk) {
            return Action::Idle;
        }
        self.handle_command(code)
    }

    fn sidebar_state(&self) -> (r: (bool, bool))
        ensures
            r.0 == self@.screen.sidebar_open,
            r.1 == self@.screen.sidebar_focused,
    {
        reveal(App::model);
        (self.screen.sidebar_open, self.screen.sidebar_focused)
    }

    fn flip_sidebar_focus(&mut self)
        requires
            old(self)@.wf(),
        ensures
            final(self)@ == old(self)@.on(
                ScreenV {
                    sidebar_focused: !old(self)@.screen.sidebar_focused,
                    ..old(self)@.screen
                },
            ),
            final(self)@.wf(),
    {
        reveal(App::model);
        let ghost s0 = self@;
        self.screen.sidebar_focused = !self.screen.sidebar_focused;
        assert(self@ == s0.on(self@.screen));
    }

    /// Handles a key in the sidebar.
    pub fn handle_sidebar_input(&mut self, code: KeyCode)
        requires
            old(self)@.wf(),
        ensures
            final(self)@ == old(self)@.on(
                old(self)@.screen.sidebar_pressed(code, old(self)@.files.len() as int),
            ),
            final(self)@.wf(),
    {
        reveal(App::model);
        let ghost s0 = self@;
        let files = self.files.len();
        assert(s0.files.len() == files);
        self.screen.handle_sidebar_input(code, files);
        assert(self@ == s0.on(self@.screen));
    }

    /// Handles a key while the diff has the focus.
    pub fn handle_normal_input(&mut self, key: Key, disk: &Disk) -> (r: Action)
        requires
            old(self)@.wf(),
        ensures
            (final(self)@, r@) == old(self)@.normal_pressed(key, disk@),
            final(self)@.wf(),
    {
        reveal(AppV::normal_pressed);
        if key.control && key.code == KeyCode::Char('d') {
            self.page_down();
            return Action::Idle;
        }
        if key.control && key.code == KeyCode::Char('u') {
            self.page_up();
            return Action::Idle;
        }
        if key.code == KeyCode::Char('B') {
            self.toggle_sidebar();
            return Action::Idle;
        }
        let (open, focused) = self.sidebar_state();
        if key.code == KeyCode::Char('b') && open {
            self.flip_sidebar_focus();
            return Action::Idle;
        }
        if open && focused {
            self.handle_sidebar_input(key.code);
            return Action::Idle;
        }
        self.handle_plain(key.code, disk)
    }

    fn break_input(&mut self)
        ensures
            final(self)@ == (AppV { input: editor_broken(old(self)@.input), ..old(self)@ }),
            old(self)@.wf() ==> final(self)@.wf(),
    {
        reveal(App::model);
        let ghost s0 = self@;
        editor_break(&mut self.annotation_input);
        assert(self@ == (AppV { input: editor_broken(s0.input), ..s0 }));
    }

    fn delete_input_head(&mut self)
        ensures
            final(self)@ == (AppV { input: editor_without_head(old(self)@.input), ..old(self)@ }),
            old(self)@.wf() ==> final(self)@.wf(),
    {
        reveal(App::model);
        let ghost s0 = self@;
        editor_delete_head(&mut self.annotation_input);
        assert(self@ == (AppV { input: editor_without_head(s0.input), ..s0 }));
    }

    fn delete_input_tail(&mut self)
        ensures
            final(self)@ == (AppV { input: editor_without_tail(old(self)@.input), ..old(self)@ }),
            old(self)@.wf() ==> final(self)@.wf(),
    {
        reveal(App::model);
        let ghost s0 = self@;
        editor_delete_tail(&mut self.annotation_input);
        assert(self@ == (AppV { input: editor_without_tail(s0.input), ..s0 }));
    }

    fn move_input(&mut self, motion: Motion)
        ensures
            final(self)@ == (AppV { input: editor_moved(old(self)@.input, motion), ..old(self)@ }),
            old(self)@.wf() ==> final(self)@.wf(),
    {
        reveal(App::model);
        let ghost s0 = self@;
        editor_move(&mut self.annotation_input, motion);
        assert(self@ == (AppV { input: editor_moved(s0.input, motion), ..s0 }));
    }

    fn type_input(&mut self, key: Key)
        requires
            key.code != KeyCode::Enter,
            key.code != KeyCode::Esc,
            key.code != KeyCode::PageUp,
            key.code != KeyCode::PageDown,
        ensures
            final(self)@ == (AppV {
                input: editor_typed(old(self)@.input, taken_key(key)),
                ..old(self)@
            }),
            old(self)@.wf() ==> final(self)@.wf(),
    {
        reveal(App::model);
        let ghost s0 = self@;
        let taken = if key.released {
            Key {
                code: KeyCode::Other,
                control: false,
                alt: false,
                shift: false,
                meta: false,
                released: true,
            }
        } else {
            key
        };
        editor_type(&mut self.annotation_input, taken);
        assert(self@ == (AppV { input: editor_typed(s0.input, taken_key(key)), ..s0 }));
    }

    /// Handles a key that edits. Tells whether it was one.
    fn handle_edit(&mut self, key: Key) -> (r: bool)
        requires
            old(self)@.wf(),
        ensures
            match old(self)@.edit_pressed(key) {
                Some(s) => r && final(self)@ == s,
                None => !r && final(self)@ == old(self)@,
            },
            final(self)@.wf(),
    {
        reveal(AppV::edit_pressed);
        if key.control && key.code == KeyCode::Char('j') {
            self.break_input();
        } else if key.control && key.code == KeyCode::Char('d') {
            self.page_down();
        } else if key.control && key.code == KeyCode::Char('u') {
            self.page_up();
        } else if key.control && key.code == KeyCode::Char('t') {
            self.flip_annotation_type();
        } else if key.meta && key.code == KeyCode::Backspace {
            self.delete_input_head();
        } else if key.meta && key.code == KeyCode::Delete {
            self.delete_input_tail();
        } else if key.meta && key.code == KeyCode::Left {
            self.move_input(Motion::Head);
        } else if key.meta && key.code == KeyCode::Right {
            self.move_input(Motion::End);
        } else if key.alt && key.code == KeyCode::Left {
            self.move_input(Motion::WordBack);
        } else if key.alt && key.code == KeyCode::Right {
            self.move_input(Motion::WordForward);
        } else {
            return false;
        }
        true
    }

    /// What keys mean.
    pub fn current_mode(&self) -> (r: Mode)
        ensures
            r == self@.mode,
    {
        reveal(App::model);
        self.mode
    }

    fn typed_nothing(&self) -> (r: bool)
        ensures
            r == nothing_typed(self@.input),
    {
        reveal(App::model);
        editor_is_empty(&self.annotation_input)
    }

    fn save_input(&mut self, disk: &Disk) -> (r: Action)
        requires
            old(self)@.wf(),
        ensures
            (final(self)@, r@) == old(self)@.saving(disk@),
            final(self)@.wf(),
    {
        reveal(AppV::saving);
        if self.typed_nothing() {
            return Action::Idle;
        }
        match self.current_mode() {
            Mode::AddAnnotation => self.add_annotation(disk),
            Mode::EditAnnotation(id) => self.edit_annotation(id),
            _ => Action::Idle,
        }
    }

    /// Handles a key while an annotation is written.
    pub fn handle_annotation_input(&mut self, key: Key, disk: &Disk) -> (r: Action)
        requires
            old(self)@.wf(),
        ensures
            (final(self)@, r@) == old(self)@.annotation_pressed(key, disk@),
            final(self)@.wf(),
    {
        reveal(AppV::annotation_pressed);
        if self.handle_edit(key) {
            return Action::Idle;
        }
        match key.code {
            KeyCode::Esc => {
                self.set_mode(Mode::Normal);
                self.set_input(new_editor());
                Action::Idle
            },
            KeyCode::Enter => self.save_input(disk),
            KeyCode::PageUp => {
                self.page_up();
                Action::Idle
            },
            KeyCode::PageDown => {
                self.page_down();
                Action::Idle
            },
            _ => {
                self.type_input(key);
                Action::Idle
            },
        }
    }

    /// A copy of the query of the search.
    fn query_text(&self) -> (r: String)
        ensures
            r@ == self@.query(),
    {
        reveal(App::model);
        match &self.search {
            Some(s) => s.query.clone(),
            None => {
                let empty = String::new();
                assert(empty@ =~= Seq::empty());
                empty
            },
        }
    }

    fn set_query(&mut self, query: String)
        requires
            old(self)@.wf(),
        ensures
            final(self)@ == old(self)@.with_query(query@),
            final(self)@.wf(),
    {
        if self.has_search() {
            self.replace_query(query);
            self.execute_search();
        }
    }

    fn replace_query(&mut self, query: String)
        requires
            old(self)@.wf(),
            old(self)@.search is Some,
        ensures
            final(self)@ == (AppV {
                search: Some(SearchV { query: query@, ..old(self)@.search->0 }),
                ..old(self)@
            }),
            final(self)@.wf(),
    {
        reveal(App::model);
        let ghost s0 = self@;
        if let Some(search) = self.search.take() {
            let mut search = search;
            search.query = query;
            self.search = Some(search);
            assert(self@.search->0 == (SearchV { query: query@, ..s0.search->0 }));
            assert(self@ == (AppV {
                search: Some(SearchV { query: query@, ..s0.search->0 }),
                ..s0
            }));
        }
    }

    fn say_matches(&mut self)
        ensures
            final(self)@ == (AppV { message: old(self)@.match_message(), ..old(self)@ }),
            old(self)@.wf() ==> final(self)@.wf(),
    {
        reveal(App::model);
        let ghost s0 = self@;
        if let Some(s) = &self.search {
            let n = s.matches.len();
            let message = if n == 0 {
                "No matches found".to_owned()
            } else {
                let mut m = "Found ".to_owned();
                m.push_str(decimal(n as u64).as_str());
                m.push_str(" match");
                m.push_str(
                    if n == 1 {
                        ""
                    } else {
                        "es"
                    },
                );
                m
            };
            self.message = Some(message);
        }
        assert(self@.message == s0.match_message());
        assert(self@ == (AppV { message: s0.match_message(), ..s0 }));
    }

    /// Handles a key while a query is typed.
    pub fn handle_search_input(&mut self, code: KeyCode)
        requires
            old(self)@.wf(),
        ensures
            final(self)@ == old(self)@.search_pressed(code),
            final(self)@.wf(),
    {
        reveal(AppV::search_pressed);
        match code {
            KeyCode::Esc => {
                self.set_mode(Mode::Normal);
                self.set_search(None);
            },
            KeyCode::Enter => {
                self.execute_search();
                self.set_mode(Mode::Normal);
                self.say_matches();
            },
            KeyCode::Backspace => {
                let query = drop_last_char(self.query_text().as_str());
                self.set_query(query);
            },
            KeyCode::Char(c) => {
                let mut query = self.query_text();
                query.push(c);
                self.set_query(query);
            },
            _ => {},
        }
    }

    fn goto_text(&self) -> (r: String)
        ensures
            r@ == self@.goto_input,
    {
        reveal(App::model);
        self.goto_line_input.clone()
    }

    fn find_line(&self, no: u32) -> (r: Option<usize>)
        ensures
            opt_idx(r) == self@.screen.line_numbered(0, no, false),
    {
        reveal(App::model);
        self.screen.find_line(no)
    }

    fn go_to_line(&mut self, no: u32)
        requires
            old(self)@.wf(),
        ensures
            final(self)@ == old(self)@.at_line(no),
            final(self)@.wf(),
    {
        if self.expanded().is_some() {
            match self.find_line(no) {
                Some(i) => self.move_to(i),
                None => {
                    let mut message = "Line ".to_owned();
                    message.push_str(decimal(no as u64).as_str());
                    message.push_str(" not found");
                    self.set_message(Some(message));
                },
            }
        } else {
            self.say("Line jump is available in expanded view (x)");
        }
    }

    fn clear_goto(&mut self)
        ensures
            final(self)@ == (AppV { goto_input: Seq::empty(), ..old(self)@ }),
            old(self)@.wf() ==> final(self)@.wf(),
    {
        let empty = String::new();
        assert(empty@ =~= Seq::empty());
        self.set_goto_input(empty);
    }

    /// Handles a key while a line number is typed.
    pub fn handle_goto_line_input(&mut self, code: KeyCode)
        requires
            old(self)@.wf(),
        ensures
            final(self)@ == old(self)@.goto_pressed(code),
            final(self)@.wf(),
    {
        reveal(AppV::goto_pressed);
        match code {
            KeyCode::Esc => {
                self.set_mode(Mode::Normal);
                self.clear_goto();
            },
            KeyCode::Enter => {
                let number = parse_u32(trim(self.goto_text().as_str()).as_str());
                self.set_mode(Mode::Normal);
                match number {
                    Some(no) => self.go_to_line(no),
                    None => self.say("Enter a line number"),
                }
                self.clear_goto();
            },
            KeyCode::Backspace => {
                let text = drop_last_char(self.goto_text().as_str());
                self.set_goto_input(text);
            },
            KeyCode::Char(c) => {
                if '0' <= c && c <= '9' {
                    let mut text = self.goto_text();
                    text.push(c);
                    self.set_goto_input(text);
                }
            },
            _ => {},
        }
    }

    fn list_position(&self) -> (r: usize)
        ensures
            r == self@.list_idx,
    {
        reveal(App::model);
        self.annotation_list_idx
    }

    fn choose_entry(&mut self, display_idx: Option<usize>)
        requires
            old(self)@.wf(),
        ensures
            final(self)@ == (match display_idx {
                Some(i) => AppV {
                    mode: Mode::Normal,
                    ..old(self)@.on(
                        old(self)@.screen.moved_to(i as int, old(self)@.files.len() as int),
                    )
                },
                None => old(self)@.saying("Annotation not present in current diff"@),
            }),
            final(self)@.wf(),
    {
        match display_idx {
            Some(i) => {
                self.move_to(i);
                self.set_mode(Mode::Normal);
            },
            None => self.say("Annotation not present in current diff"),
        }
    }

    /// Handles a key in the list of annotations.
    pub fn handle_annotation_list_input(&mut self, code: KeyCode) -> (r: Action)
        requires
            old(self)@.wf(),
        ensures
            (final(self)@, r@) == old(self)@.list_pressed(code),
            final(self)@.wf(),
    {
        reveal(AppV::list_pressed);
        if code == KeyCode::Esc || code == KeyCode::Char('q') {
            self.set_mode(Mode::Normal);
            return Action::Idle;
        }
        let entries = self.annotation_list_entries();
        assert(entry_views(entries@).len() == entries@.len());
        let n = entries.len();
        if n == 0 {
            return Action::Idle;
        }
        let idx = self.list_position();
        match code {
            KeyCode::Char('P') => {
                self.flip_ai_pane();
                return Action::Idle;
            },
            KeyCode::Char('j') | KeyCode::Down => {
                self.set_list_idx(min_usize(capped_sum(idx, 1), n - 1));
                return Action::Idle;
            },
            KeyCode::Char('k') | KeyCode::Up => {
                self.set_list_idx(last_index(idx));
                return Action::Idle;
            },
            _ => {},
        }
        if idx >= n {
            return Action::Idle;
        }
        let e = &entries[idx];
        assert(old(self)@.entries()[idx as int] == e@);
        match code {
            KeyCode::Char('d') => Action::Store {
                statement: Storage::delete_annotation(e.id),
                next: Next::ReloadList,
            },
            KeyCode::Enter => {
                self.choose_entry(e.display_idx);
                Action::Idle
            },
            KeyCode::Char('e') => {
                self.begin_editing(e.id, e.content.as_str(), e.annotation_type);
                Action::Idle
            },
            _ => Action::Idle,
        }
    }

    /// Handles a key. `disk` holds what was read for it.
    pub fn handle_input(&mut self, key: Key, disk: &Disk) -> (r: Action)
        requires
            old(self)@.wf(),
        ensures
            (final(self)@, r@) == old(self)@.pressed(key, disk@),
            final(self)@.wf(),
    {
        reveal(AppV::pressed);
        self.set_message(None);
        if key.control && key.code == KeyCode::Char('r') {
            self.reload_diff();
            self.say("Diff reloaded");
            return Action::LoadDiff;
        }
        let mode = self.current_mode();
        if key.code == KeyCode::Char('?') && (mode == Mode::Normal || mode
            == Mode::AnnotationList) {
            self.toggle_help();
            return Action::Idle;
        }
        if self.shows_help() {
            self.handle_help_input(key.code);
            return Action::Idle;
        }
        match mode {
            Mode::Normal => self.handle_normal_input(key, disk),
            Mode::AddAnnotation | Mode::EditAnnotation(_) => self.handle_annotation_input(
                key,
                disk,
            ),
            Mode::SearchFile | Mode::SearchContent => {
                self.handle_search_input(key.code);
                Action::Idle
            },
            Mode::AnnotationList => self.handle_annotation_list_input(key.code),
            Mode::GotoLine => {
                self.handle_goto_line_input(key.code);
                Action::Idle
            },
        }
    }
}

proof fn lemma_resolving_stays(s: AppV)
    ensures
        !(s.resolving().1 is Quit),
{
    reveal(AppV::resolving);
}

proof fn lemma_sending_stays(s: AppV)
    ensures
        !(s.sending().1 is Quit),
{
    reveal(AppV::sending);
}

proof fn lemma_staging_stays(s: AppV)
    ensures
        !(s.staging().1 is Quit),
{
    reveal(AppV::staging);
}

proof fn lemma_discarding_stays(s: AppV)
    ensures
        !(s.discarding().1 is Quit),
{
    reveal(AppV::discarding);
}

proof fn lemma_view_toggled_stays(s: AppV)
    ensures
        !(s.view_toggled().1 is Quit),
{
    reveal(AppV::view_toggled);
}

proof fn lemma_copying_stays(s: AppV)
    ensures
        !(s.copying().1 is Quit),
{
    reveal(AppV::copying);
}

proof fn lemma_retyping_stays(s: AppV)
    ensures
        !(s.retyping().1 is Quit),
{
    reveal(AppV::retyping);
}

proof fn lemma_deleting_stays(s: AppV)
    ensures
        !(s.deleting() is Quit),
{
    reveal(AppV::deleting);
}

proof fn lemma_command_stays(s: AppV, code: KeyCode)
    ensures
        !(s.command_pressed(code).1 is Quit),
{
    reveal(AppV::command_pressed);
    lemma_resolving_stays(s);
    lemma_sending_stays(s);
    lemma_staging_stays(s);
    lemma_discarding_stays(s);
    lemma_view_toggled_stays(s);
    lemma_copying_stays(s);
    lemma_retyping_stays(s);
    lemma_deleting_stays(s);
}

proof fn lemma_annotation_stays(s: AppV, key: Key, disk: DiskV)
    ensures
        !(s.annotation_pressed(key, disk).1 is Quit),
{
    reveal(AppV::annotation_pressed);
    reveal(AppV::saving);
}

proof fn lemma_list_stays(s: AppV, code: KeyCode)
    ensures
        !(s.list_pressed(code).1 is Quit),
{
    reveal(AppV::list_pressed);
}

proof fn lemma_plain_quit(s: AppV, code: KeyCode, disk: DiskV)
    ensures
        (s.plain_pressed(code, disk).1 is Quit) == (code == KeyCode::Char('q')),
{
    reveal(AppV::plain_pressed);
    lemma_command_stays(s, code);
}

/// The key `q` ends the application wherever no text is typed, unless the help,
/// the list of annotations or the sidebar takes it. No other key does.
pub proof fn law_quit(s: AppV, key: Key, disk: DiskV)
    ensures
        (s.pressed(key, disk).1 is Quit) == (key.code == KeyCode::Char('q') && s.mode
            == Mode::Normal && !s.show_help && !(s.screen.sidebar_open
            && s.screen.sidebar_focused)),
{
    reveal(AppV::pressed);
    reveal(AppV::normal_pressed);
    let t = AppV { message: None, ..s };
    lemma_plain_quit(t, key.code, disk);
    lemma_annotation_stays(t, key, disk);
    lemma_list_stays(t, key.code);
}

// ---------------------------------------------------------------------------
// What keys lead to
// ---------------------------------------------------------------------------
/// Whether a key goes to the diff: it has the focus, and nothing lies over it.
pub open spec fn diff_focused(s: AppV) -> bool {
    s.mode == Mode::Normal && !s.show_help && !(s.screen.sidebar_open && s.screen.sidebar_focused)
}

proof fn lemma_plain(s: AppV, key: Key, disk: DiskV)
    requires
        diff_focused(s),
        !key.control,
        key.code != KeyCode::Char('?'),
        key.code != KeyCode::Char('B'),
        key.code != KeyCode::Char('b'),
    ensures
        s.pressed(key, disk) == (AppV { message: None, ..s }).plain_pressed(key.code, disk),
{
    reveal(AppV::pressed);
    reveal(AppV::normal_pressed);
}

/// The keys `j` and `k`, or the arrows, move the cursor to the next and to the
/// previous line that it can stand on, and nothing else but what follows the
/// cursor.
pub proof fn law_line_keys(s: AppV, key: Key, disk: DiskV)
    requires
        diff_focused(s),
        !key.control,
        !s.screen.selection_active,
        can_stand(s.screen, s.screen.cursor),
    ensures
        ({
            let (t, action) = s.pressed(key, disk);
            let c = t.screen.cursor;
            &&& key.code == KeyCode::Char('j') || key.code == KeyCode::Down ==> {
                &&& action == ActionV::Idle
                &&& t.screen.lines == s.screen.lines
                &&& t.annotations == s.annotations
                &&& t.mode == s.mode
                &&& if exists|i: int| s.screen.cursor < i && #[trigger] can_stand(s.screen, i) {
                    &&& s.screen.cursor < c
                    &&& can_stand(s.screen, c)
                    &&& forall|i: int| s.screen.cursor < i < c ==> !#[trigger] can_stand(s.screen, i)
                } else {
                    c == s.screen.cursor
                }
            }
            &&& key.code == KeyCode::Char('k') || key.code == KeyCode::Up ==> {
                &&& action == ActionV::Idle
                &&& t.screen.lines == s.screen.lines
                &&& t.annotations == s.annotations
                &&& t.mode == s.mode
                &&& if exists|i: int| i < s.screen.cursor && #[trigger] can_stand(s.screen, i) {
                    &&& c < s.screen.cursor
                    &&& can_stand(s.screen, c)
                    &&& forall|i: int| c < i < s.screen.cursor ==> !#[trigger] can_stand(s.screen, i)
                } else {
                    c == s.screen.cursor
                }
            }
        }),
{
    let files = s.files.len() as int;
    if key.code == KeyCode::Char('j') || key.code == KeyCode::Down || key.code == KeyCode::Char('k')
        || key.code == KeyCode::Up {
        lemma_plain(s, key, disk);
        reveal(AppV::plain_pressed);
        reveal(AppV::move_pressed);
        law_down_is_next(s.screen, files);
        law_up_is_previous(s.screen, files);
    }
}

/// The keys `g` and `G` go to the first and to the last line that the cursor can
/// stand on.
pub proof fn law_end_keys(s: AppV, key: Key, disk: DiskV)
    requires
        diff_focused(s),
        !key.control,
        exists|i: int| can_stand(s.screen, i),
    ensures
        key.code == KeyCode::Char('g') ==> {
            let c = s.pressed(key, disk).0.screen.cursor;
            can_stand(s.screen, c) && forall|i: int| #[trigger] can_stand(s.screen, i) ==> c <= i
        },
        key.code == KeyCode::Char('G') ==> {
            let c = s.pressed(key, disk).0.screen.cursor;
            can_stand(s.screen, c) && forall|i: int| #[trigger] can_stand(s.screen, i) ==> i <= c
        },
{
    if key.code == KeyCode::Char('g') || key.code == KeyCode::Char('G') {
        lemma_plain(s, key, disk);
        reveal(AppV::plain_pressed);
        reveal(AppV::move_pressed);
        law_ends(s.screen, s.files.len() as int);
    }
}

/// The keys `a`, `e`, `d`, `r` and `t` are for annotations, `s` and `D` for hunks,
/// `x`, `c`, `v` and `h` for the view, `u` and `R` for the diff, `y` copies, `@`
/// asks, and `V` selects; `f` and `/` search, and `n` and `N` go on to what was
/// found or to the changes.
pub proof fn law_command_keys(s: AppV, key: Key, disk: DiskV)
    requires
        diff_focused(s),
        !key.control,
    ensures
        ({
            let t = AppV { message: None, ..s };
            let r = s.pressed(key, disk);
            let files = s.files.len() as int;
            &&& key.code == KeyCode::Char('a') ==> r == (t.annotation_begun(), ActionV::Idle)
            &&& key.code == KeyCode::Char('e') ==> r == (t.edit_begun(), ActionV::Idle)
            &&& key.code == KeyCode::Char('d') ==> r == (t, t.deleting())
            &&& key.code == KeyCode::Char('r') ==> r == t.resolving()
            &&& key.code == KeyCode::Char('t') ==> r == t.retyping()
            &&& key.code == KeyCode::Char('s') ==> r == t.staging()
            &&& key.code == KeyCode::Char('D') ==> r == t.discarding()
            &&& key.code == KeyCode::Char('x') ==> r == (t.expand_toggled(disk), ActionV::Idle)
            &&& key.code == KeyCode::Char('c') ==> r == (t.collapse_toggled(disk), ActionV::Idle)
            &&& key.code == KeyCode::Char('v') ==> r == (t.layout_toggled(), ActionV::Idle)
            &&& key.code == KeyCode::Char('h') ==> r == (t.deletions_toggled(disk), ActionV::Idle)
            &&& key.code == KeyCode::Char('u') ==> r == t.view_toggled()
            &&& key.code == KeyCode::Char('R') ==> r.1 == ActionV::LoadDiff
            &&& key.code == KeyCode::Char('y') ==> r == t.copying()
            &&& key.code == KeyCode::Char('@') ==> r == t.sending()
            &&& key.code == KeyCode::Char('V') ==> r == (t.selection_toggled(), ActionV::Idle)
            &&& key.code == KeyCode::Char('f') ==> r.0.mode == Mode::SearchFile && (
            r.0.search matches Some(q) && q.search_type == SearchType::File && q.query.len() == 0)
            &&& key.code == KeyCode::Char('/') ==> r.0.mode == Mode::SearchContent && (
            r.0.search matches Some(q) && q.search_type == SearchType::Content && q.query.len()
                == 0)
            &&& key.code == KeyCode::Char('n') && s.search is Some ==> r.0 == t.to_next_match()
            &&& key.code == KeyCode::Char('N') && s.search is Some ==> r.0 == t.to_prev_match()
            &&& key.code == KeyCode::Char('n') && s.search is None ==> r.0.screen
                == s.screen.to_next_change(s.expanded is Some, files)
            &&& key.code == KeyCode::Char('N') && s.search is None ==> r.0.screen
                == s.screen.to_prev_change(s.expanded is Some, files)
            &&& key.code == KeyCode::Tab ==> r.0.screen == s.screen.to_next_file(files)
            &&& key.code == KeyCode::BackTab ==> r.0.screen == s.screen.to_prev_file(files)
            &&& key.code == KeyCode::Esc ==> r.0.search is None && !r.0.screen.selection_active
            &&& key.code == KeyCode::Char('A') ==> r.0.mode == Mode::AnnotationList && r.0.list_idx
                == 0
            &&& key.code == KeyCode::Char('P') ==> r.0.show_ai_pane == !s.show_ai_pane
            &&& key.code == KeyCode::Char(':') && s.expanded is Some ==> r.0.mode == Mode::GotoLine
                && r.0.goto_input.len() == 0
        }),
{
    if key.code != KeyCode::Char('?') && key.code != KeyCode::Char('B') && key.code
        != KeyCode::Char('b') {
        lemma_plain(s, key, disk);
        reveal(AppV::plain_pressed);
        reveal(AppV::move_pressed);
        reveal(AppV::view_pressed);
        reveal(AppV::command_pressed);
    }
}

/// The key `d` deletes the annotation of the cursor's line, and only where there is
/// one; `r` resolves it if it is not resolved and takes that back if it is; `t`
/// keeps its text and gives it the other type.
pub proof fn law_annotation_keys(s: AppV)
    ensures
        match s.annotation_here() {
            Some(i) => {
                let a = s.annotations[i];
                &&& s.deleting() matches ActionV::Store { statement, next } && statement
                    == delete_statement(a.id) && (next matches NextV::Deleted { id, file_path }
                    && id == a.id && file_path == a.file_path)
                &&& s.resolving().1 matches ActionV::Store { statement, next } && statement == (
                if a.resolved_at is None {
                    resolve_statement(a.id)
                } else {
                    unresolve_statement(a.id)
                }) && next == NextV::Reload
                &&& s.retyping().1 matches ActionV::Store { statement, next } && next
                    == NextV::Reload && statement == update_statement(
                    a.id,
                    a.content,
                    if a.annotation_type == AnnotationType::Comment {
                        AnnotationType::Todo
                    } else {
                        AnnotationType::Comment
                    },
                )
                &&& s.edit_begun().mode == Mode::EditAnnotation(a.id)
                &&& s.edit_begun().input == crate::keys::loaded(a.content)
                &&& s.edit_begun().annotation_type == a.annotation_type
            },
            None => {
                &&& s.deleting() == ActionV::Idle
                &&& s.resolving().1 == ActionV::Idle
                &&& s.retyping().1 == ActionV::Idle
                &&& s.retyping().0.annotation_type != s.annotation_type
                &&& s.edit_begun() == s
            },
        },
{
    reveal(AppV::deleting);
    reveal(AppV::resolving);
    reveal(AppV::retyping);
    reveal(AppV::edit_begun);
}

/// While an annotation is written, Enter stores what was typed, for a new
/// annotation as a new one and for one that is edited under its id; without text it
/// does nothing. Escape stores nothing and puts the text away.
pub proof fn law_save_keys(s: AppV, key: Key, disk: DiskV)
    requires
        s.mode is AddAnnotation || s.mode is EditAnnotation,
        !key.control,
        !key.meta,
        !key.alt,
        !s.show_help,
    ensures
        key.code == KeyCode::Esc ==> s.pressed(key, disk).1 == ActionV::Idle && s.pressed(
            key,
            disk,
        ).0.mode == Mode::Normal && s.pressed(key, disk).0.annotations == s.annotations,
        key.code == KeyCode::Enter && nothing_typed(s.input) ==> s.pressed(key, disk).1
            == ActionV::Idle && s.pressed(key, disk).0.mode == s.mode,
        key.code == KeyCode::Enter && !nothing_typed(s.input) ==> (s.mode matches
            Mode::EditAnnotation(id) ==> (s.pressed(key, disk).1 matches ActionV::Store {
            statement,
            next,
        } && statement == update_statement(id, typed_text(s.input), s.annotation_type) && (
        next matches NextV::Edited { id: i, content, annotation_type } && i == id && content
            == typed_text(s.input) && annotation_type == s.annotation_type))),
        key.code == KeyCode::Enter && !nothing_typed(s.input) && s.mode is AddAnnotation ==> (
        s.draft(disk) matches Some(a) ==> (s.pressed(key, disk).1 matches ActionV::Store {
            statement,
            next,
        } && statement == insert_statement(s.repo_id, a) && next == NextV::Added(a))),
{
    reveal(AppV::pressed);
    reveal(AppV::annotation_pressed);
    reveal(AppV::edit_pressed);
    reveal(AppV::saving);
    let t = AppV { message: None, ..s };
    assert(t.draft(disk) == s.draft(disk)) by {
        reveal(AppV::draft);
    }
}

/// A digit that is typed for a line number and taken back leaves the number as it
/// was; other characters are not taken. Enter goes to the line with the number.
pub proof fn law_goto_keys(s: AppV, c: char)
    ensures
        '0' <= c <= '9' ==> s.goto_pressed(KeyCode::Char(c)).goto_input == s.goto_input + seq![c]
            && s.goto_pressed(KeyCode::Char(c)).goto_pressed(KeyCode::Backspace).goto_input
            == s.goto_input,
        !('0' <= c <= '9') ==> s.goto_pressed(KeyCode::Char(c)) == s,
        s.goto_pressed(KeyCode::Esc).mode == Mode::Normal && s.goto_pressed(KeyCode::Esc).screen
            == s.screen,
{
    reveal(AppV::goto_pressed);
    assert(s.goto_input.push(c) =~= s.goto_input + seq![c]);
    assert(s.goto_input.push(c).drop_last() =~= s.goto_input);
}

/// Asking for a line of an expanded file by its number brings the cursor to a line
/// with that new number, exactly if the display has one.
pub proof fn law_goto_line(s: AppV, no: u32)
    requires
        s.expanded is Some,
        u32_value(trimmed(s.goto_input)) == Some(no),
    ensures
        ({
            let t = s.goto_pressed(KeyCode::Enter);
            let found = exists|k: int|
                0 <= k < s.screen.lines.len() && (#[trigger] s.screen.lines[k]) is Diff
                    && s.screen.lines[k]->Diff_line.new_line_no == Some(no);
            &&& t.mode == Mode::Normal
            &&& t.goto_input.len() == 0
            &&& t.screen.lines == s.screen.lines
            &&& found ==> 0 <= t.screen.cursor < s.screen.lines.len()
                && s.screen.lines[t.screen.cursor] is Diff
                && s.screen.lines[t.screen.cursor]->Diff_line.new_line_no == Some(no)
            &&& !found ==> t.screen == s.screen
        }),
{
    reveal(AppV::goto_pressed);
    law_line_by_number(s.screen, no, false, s.files.len() as int);
    if let Some(j) = s.screen.line_numbered(0, no, false) {
        assert(can_stand(s.screen, j));
        law_moved_to(s.screen, j, s.files.len() as int);
        assert(s.screen.lines[j] is Diff);
    }
}

/// A character that is typed into a query is put at its end, and Backspace takes
/// the last one away; Escape ends the search.
pub proof fn law_query_keys(s: AppV, c: char)
    requires
        s.search is Some,
    ensures
        s.search_pressed(KeyCode::Char(c)).query() == s.query() + seq![c],
        s.search_pressed(KeyCode::Char(c)).search_pressed(KeyCode::Backspace).query() == s.query(),
        s.search_pressed(KeyCode::Esc).search is None,
        s.search_pressed(KeyCode::Esc).mode == Mode::Normal,
        s.search_pressed(KeyCode::Enter).mode == Mode::Normal,
        s.search_pressed(KeyCode::Enter).query() == s.query(),
{
    reveal(AppV::search_pressed);
    reveal(AppV::searched);
    assert(s.query().push(c) =~= s.query() + seq![c]);
    assert(s.query().push(c).drop_last() =~= s.query());
}

/// In the list of annotations the keys act on the entry that is selected: `d`
/// deletes its annotation, `e` edits it, and Enter goes to its place in the
/// display. `j` and `k` select the next and the previous entry, within the list.
pub proof fn law_list_keys(s: AppV, e: EntryV)
    requires
        0 <= s.list_idx < s.entries().len(),
        s.entries()[s.list_idx] == e,
    ensures
        s.list_pressed(KeyCode::Char('d')).1 matches ActionV::Store { statement, next } && statement
            == delete_statement(e.id) && next == NextV::ReloadList,
        s.list_pressed(KeyCode::Char('e')).0.mode == Mode::EditAnnotation(e.id),
        s.list_pressed(KeyCode::Char('e')).0.input == crate::keys::loaded(e.content),
        e.display_idx matches Some(i) ==> s.list_pressed(KeyCode::Enter).0.screen
            == s.screen.moved_to(i, s.files.len() as int) && s.list_pressed(KeyCode::Enter).0.mode
            == Mode::Normal,
        e.display_idx is None ==> s.list_pressed(KeyCode::Enter).0.screen == s.screen,
        s.list_pressed(KeyCode::Char('j')).0.list_idx == (if s.list_idx + 1 < s.entries().len() {
            s.list_idx + 1
        } else {
            s.list_idx
        }),
        s.list_pressed(KeyCode::Char('k')).0.list_idx == (if s.list_idx > 0 {
            s.list_idx - 1
        } else {
            0
        }),
        s.list_pressed(KeyCode::Down) == s.list_pressed(KeyCode::Char('j')),
        s.list_pressed(KeyCode::Up) == s.list_pressed(KeyCode::Char('k')),
        s.list_pressed(KeyCode::Esc).0.mode == Mode::Normal,
{
    reveal(AppV::list_pressed);
}

/// In the sidebar, down and up select the next and the previous file, within the
/// list, and bring the cursor to the header of that file or below it.
pub proof fn law_sidebar_keys(s: ScreenV, files: int, h: int)
    requires
        0 <= s.sidebar_index < files,
    ensures
        s.sidebar_pressed(KeyCode::Down, files) == s.sidebar_pressed(KeyCode::Char('j'), files),
        s.sidebar_pressed(KeyCode::Up, files) == s.sidebar_pressed(KeyCode::Char('k'), files),
        s.sidebar_index + 1 < files ==> s.sidebar_pressed(KeyCode::Down, files) == s.sidebar_moved(
            s.sidebar_index + 1,
            files,
        ),
        s.sidebar_index > 0 ==> s.sidebar_pressed(KeyCode::Up, files) == s.sidebar_moved(
            s.sidebar_index - 1,
            files,
        ),
        !s.sidebar_pressed(KeyCode::Esc, files).sidebar_focused,
        !s.sidebar_pressed(KeyCode::Enter, files).sidebar_focused,
{
    reveal(ScreenV::sidebar_pressed);
}

/// With the control key, `d` and `u` move the cursor by half a page: down to a line
/// that is no further up, and up to one that is no further down.
pub proof fn law_page_keys(s: AppV, key: Key, disk: DiskV)
    requires
        diff_focused(s),
        key.control,
        !s.screen.selection_active,
        can_stand(s.screen, s.screen.cursor),
    ensures
        key.code == KeyCode::Char('d') ==> s.pressed(key, disk).0.screen.cursor >= s.screen.cursor
            && can_stand(s.screen, s.pressed(key, disk).0.screen.cursor) && s.pressed(key, disk).1
            == ActionV::Idle && s.pressed(key, disk).0.annotations == s.annotations,
        key.code == KeyCode::Char('u') ==> s.pressed(key, disk).0.screen.cursor <= s.screen.cursor
            && can_stand(s.screen, s.pressed(key, disk).0.screen.cursor) && s.pressed(key, disk).1
            == ActionV::Idle && s.pressed(key, disk).0.diff_mode == s.diff_mode,
        key.code == KeyCode::Char('r') ==> s.pressed(key, disk).1 == ActionV::LoadDiff,
{
    reveal(AppV::pressed);
    reveal(AppV::normal_pressed);
    crate::navigate::law_pages(s.screen, s.files.len() as int);
}

} // verus!
